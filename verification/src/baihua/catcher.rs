//! Reading the pages of the forum archive.
use vstd::prelude::*;

use crate::address::{join_url, url_join};
use crate::html::{
    css_selector_ok, descendant_matches, document_matches, element_attr, element_html,
    element_text, lemma_selection_matches_all, selection_attr, selection_matches, selection_text,
    selector_is_valid, Page,
};
use crate::pattern::{first_capture, regex_capture};
use crate::text::{
    contains, occurs_at, occurs_in, parse_u64, parsed_unsigned, split_char, split_on, trim, trimmed, views,
};

verus! {

/// The category entries of the archive index.
pub const INDEX_ENTRIES: &'static str = "#content > ul:nth-child(2) > li";

/// The link inside an index entry.
pub const ENTRY_LINK: &'static str = "a";

/// The link to the last archive page of a category.
pub const END_LINK: &'static str = "#end > a";

/// The address the link to the last page is relative to.
pub const ARCHIVER_BASE: &'static str = "http://bhc339.top/archiver";

/// The link to the last page in the forum's pagination bar.
pub const LAST_PAGE_LINK: &'static str = "#fd_page_bottom > div > a.last";

/// The pattern whose first match in the last-page link is the page number.
pub const PAGE_NUMBER_PATTERN: &'static str = "\\d+";

/// The post links of an archive page.
pub const POST_LINKS: &'static str = "#content li > a";

/// An entry of the archive index.
#[derive(Debug)]
pub struct CategoryItem {
    pub name: String,
    pub link: String,
}

pub struct CategoryItemView {
    pub name: Seq<char>,
    pub link: Seq<char>,
}

impl View for CategoryItem {
    type V = CategoryItemView;

    open spec fn view(&self) -> CategoryItemView {
        CategoryItemView { name: self.name@, link: self.link@ }
    }
}

pub open spec fn category_item_views(v: Seq<CategoryItem>) -> Seq<CategoryItemView> {
    v.map_values(|c: CategoryItem| c@)
}

/// A post link of an archive page.
#[derive(Debug)]
pub struct BasePostItem {
    pub path: String,
    pub title: String,
}

pub struct BasePostItemView {
    pub path: Seq<char>,
    pub title: Seq<char>,
}

impl View for BasePostItem {
    type V = BasePostItemView;

    open spec fn view(&self) -> BasePostItemView {
        BasePostItemView { path: self.path@, title: self.title@ }
    }
}

pub open spec fn base_post_views(v: Seq<BasePostItem>) -> Seq<BasePostItemView> {
    v.map_values(|c: BasePostItem| c@)
}

/// Why an archive page could not be read.
#[derive(Debug)]
pub enum CatcherError {
    /// The category page has no link to its last page.
    MissingEndLink,
    /// The link to the last page does not resolve to an address.
    BadEndLink,
    /// The post page has no post.
    MissingMainPost,
}

impl CatcherError {
    /// The message the error is reported with.
    pub fn message(&self) -> (m: &'static str)
        ensures
            m@ == match self {
                CatcherError::MissingEndLink => "???????????????"@,
                CatcherError::BadEndLink => "?????????????????????????????????"@,
                CatcherError::MissingMainPost => "?????????????????????"@,
            },
    {
        match self {
            CatcherError::MissingEndLink => "???????????????",
            CatcherError::BadEndLink => "?????????????????????????????????",
            CatcherError::MissingMainPost => "?????????????????????",
        }
    }
}

/// The entry of index item `item`: the text of its links, and the address of
/// the first, empty where it has none.
pub open spec fn category_of_entry(source: Seq<char>, removed: Seq<usize>, item: usize) -> CategoryItemView {
    let links = descendant_matches(source, removed, item, ENTRY_LINK@);
    CategoryItemView {
        name: selection_text(source, removed, links),
        link: match selection_attr(source, removed, links, "href"@) {
            Some(h) => h,
            None => Seq::empty(),
        },
    }
}

/// The entries of the index items `items`, in order.
pub open spec fn categories_of_entries(source: Seq<char>, removed: Seq<usize>, items: Seq<usize>) -> Seq<
    CategoryItemView,
>
    decreases items.len(),
{
    if items.len() == 0 {
        Seq::empty()
    } else {
        categories_of_entries(source, removed, items.drop_last()).push(
            category_of_entry(source, removed, items.last()),
        )
    }
}

/// The entries of the archive index `html`.
pub open spec fn categories_of(html: Seq<char>) -> Seq<CategoryItemView> {
    categories_of_entries(html, Seq::empty(), document_matches(html, Seq::empty(), INDEX_ENTRIES@))
}

/// The entries of the archive index `html`; `None` where `nipper` would
/// reject one of the selectors (where the catcher panics).
pub fn categories(html: &str) -> (r: Option<Vec<CategoryItem>>)
    ensures
        r is Some <==> css_selector_ok(INDEX_ENTRIES@) && css_selector_ok(ENTRY_LINK@),
        r matches Some(v) ==> category_item_views(v@) == categories_of(html@),
{
    if !selector_is_valid(INDEX_ENTRIES) || !selector_is_valid(ENTRY_LINK) {
        return None;
    }
    proof {
        reveal_strlit("href");
        reveal_strlit("");
    }
    let page = Page::parse(html);
    let items = page.select(INDEX_ENTRIES);
    let mut out: Vec<CategoryItem> = Vec::new();
    let mut i: usize = 0;
    assert(items@.take(0) =~= Seq::<usize>::empty());
    assert(category_item_views(out@) =~= Seq::<CategoryItemView>::empty());
    while i < items.len()
        invariant
            i <= items.len(),
            page.source() == html@,
            page.removed() == Seq::<usize>::empty(),
            page.valid(items@),
            css_selector_ok(ENTRY_LINK@),
            category_item_views(out@) == categories_of_entries(
                html@,
                Seq::empty(),
                items@.take(i as int),
            ),
        decreases items.len() - i,
    {
        assert(items@.take(i + 1).drop_last() =~= items@.take(i as int));
        assert(items@.take(i + 1).last() == items@[i as int]);
        let links = page.select_under(items[i], ENTRY_LINK);
        let name = page.text_of(&links);
        let link = page.attr_or(&links, "href", "");
        proof {
            reveal_strlit("");
        }
        assert(""@ =~= Seq::<char>::empty());
        let ghost before = category_item_views(out@);
        let item = CategoryItem { name, link };
        out.push(item);
        assert(category_item_views(out@) =~= before.push(category_of_entry(html@, Seq::empty(), items@[i as int])));
        i = i + 1;
    }
    assert(items@.take(items.len() as int) =~= items@);
    Some(out)
}

/// The address of the last archive page of a category, read from the first
/// page `html` of the category.
pub open spec fn end_address_of(html: Seq<char>) -> Result<Seq<char>, CatcherError> {
    let none = Seq::<usize>::empty();
    match selection_attr(html, none, document_matches(html, none, END_LINK@), "href"@) {
        None => Err(CatcherError::MissingEndLink),
        Some(link) => match url_join(ARCHIVER_BASE@, link) {
            None => Err(CatcherError::BadEndLink),
            Some(u) => Ok(u),
        },
    }
}

/// The address of the last archive page of a category, from its first page
/// `html`; `None` where `nipper` would reject the selector.
pub fn end_address(html: &str) -> (r: Option<Result<String, CatcherError>>)
    ensures
        r is Some <==> css_selector_ok(END_LINK@),
        r matches Some(x) ==> match end_address_of(html@) {
            Ok(u) => x matches Ok(v) && v@ == u,
            Err(CatcherError::MissingEndLink) => x matches Err(CatcherError::MissingEndLink),
            Err(CatcherError::BadEndLink) => x matches Err(CatcherError::BadEndLink),
            Err(CatcherError::MissingMainPost) => false,
        },
{
    if !selector_is_valid(END_LINK) {
        return None;
    }
    proof {
        reveal_strlit("href");
    }
    let page = Page::parse(html);
    let links = page.select(END_LINK);
    match page.attr_of(&links, "href") {
        None => Some(Err(CatcherError::MissingEndLink)),
        Some(link) => match join_url(ARCHIVER_BASE, link.as_str()) {
            None => Some(Err(CatcherError::BadEndLink)),
            Some(u) => Some(Ok(u)),
        },
    }
}

/// The page number that the digits found in the last-page link give: their
/// value where it is a `u64`, else 1; 1 where no digits were found.
pub open spec fn page_count_of(digits: Option<Seq<char>>) -> u64 {
    match digits {
        Some(d) => match parsed_unsigned(d, u64::MAX as nat) {
            Some(v) => v as u64,
            None => 1,
        },
        None => 1,
    }
}

/// The number of the last page, read from the last archive page `html`.
pub open spec fn last_page_of(html: Seq<char>) -> u64 {
    let none = Seq::<usize>::empty();
    let text = selection_text(html, none, document_matches(html, none, LAST_PAGE_LINK@));
    page_count_of(regex_capture(PAGE_NUMBER_PATTERN@, text, 0))
}

/// The page number from the digits found in the last-page link.
pub fn page_count_from_digits(digits: Option<String>) -> (n: u64)
    ensures
        n == page_count_of(
            match digits {
                Some(d) => Some(d@),
                None => None,
            },
        ),
{
    match digits {
        Some(d) => match parse_u64(d.as_str()) {
            Some(v) => v,
            None => 1,
        },
        None => 1,
    }
}

/// The number of the last page of a category, from its last archive page
/// `html`; `None` where `nipper` would reject the selector.
pub fn last_page(html: &str) -> (r: Option<u64>)
    ensures
        r is Some <==> css_selector_ok(LAST_PAGE_LINK@),
        r matches Some(n) ==> n == last_page_of(html@),
{
    if !selector_is_valid(LAST_PAGE_LINK) {
        return None;
    }
    let page = Page::parse(html);
    let links = page.select(LAST_PAGE_LINK);
    let text = page.text_of(&links);
    let digits = first_capture(PAGE_NUMBER_PATTERN, text.as_str(), 0);
    Some(page_count_from_digits(digits))
}

/// Every post link `links` has an address.
pub open spec fn all_have_address(source: Seq<char>, removed: Seq<usize>, links: Seq<usize>) -> bool {
    forall|i: int|
        0 <= i < links.len() ==> element_attr(source, removed, #[trigger] links[i], "href"@) is Some
}

/// The post links `links`: address and text of each, in order.
pub open spec fn base_posts_of_links(source: Seq<char>, removed: Seq<usize>, links: Seq<usize>) -> Seq<
    BasePostItemView,
>
    decreases links.len(),
{
    if links.len() == 0 {
        Seq::empty()
    } else {
        base_posts_of_links(source, removed, links.drop_last()).push(
            BasePostItemView {
                path: element_attr(source, removed, links.last(), "href"@)->0,
                title: element_text(source, removed, links.last()),
            },
        )
    }
}

/// The post links of the archive page `html`; `None` where `nipper` would
/// reject the selector or a link has no address (where the catcher panics).
pub fn base_posts(html: &str) -> (r: Option<Vec<BasePostItem>>)
    ensures
        r is Some <==> css_selector_ok(POST_LINKS@) && all_have_address(
            html@,
            Seq::empty(),
            document_matches(html@, Seq::empty(), POST_LINKS@),
        ),
        r matches Some(v) ==> base_post_views(v@) == base_posts_of_links(
            html@,
            Seq::empty(),
            document_matches(html@, Seq::empty(), POST_LINKS@),
        ),
{
    if !selector_is_valid(POST_LINKS) {
        return None;
    }
    proof {
        reveal_strlit("href");
    }
    let page = Page::parse(html);
    let links = page.select(POST_LINKS);
    let mut out: Vec<BasePostItem> = Vec::new();
    let mut i: usize = 0;
    assert(links@.take(0) =~= Seq::<usize>::empty());
    assert(base_post_views(out@) =~= Seq::<BasePostItemView>::empty());
    while i < links.len()
        invariant
            i <= links.len(),
            page.source() == html@,
            page.removed() == Seq::<usize>::empty(),
            page.valid(links@),
            links@ == document_matches(html@, Seq::empty(), POST_LINKS@),
            forall|k: int|
                0 <= k < i ==> element_attr(html@, Seq::empty(), #[trigger] links@[k], "href"@) is Some,
            base_post_views(out@) == base_posts_of_links(
                html@,
                Seq::empty(),
                links@.take(i as int),
            ),
        decreases links.len() - i,
    {
        assert(links@.take(i + 1).drop_last() =~= links@.take(i as int));
        assert(links@.take(i + 1).last() == links@[i as int]);
        match page.element_attr(links[i], "href") {
            None => {
                return None;
            },
            Some(path) => {
                let title = page.element_text(links[i]);
                let ghost before = base_post_views(out@);
                out.push(BasePostItem { path, title });
                assert(base_post_views(out@) =~= before.push(
                    BasePostItemView {
                        path: element_attr(html@, Seq::empty(), links@[i as int], "href"@)->0,
                        title: element_text(html@, Seq::empty(), links@[i as int]),
                    },
                ));
            },
        }
        i = i + 1;
    }
    assert(links@.take(links.len() as int) =~= links@);
    Some(out)
}


/// The title of a post page.
pub const THREAD_SUBJECT: &'static str = "#thread_subject";

/// The posts of a post page: the main post first, then the comments.
pub const THREAD_POSTS: &'static str = ".t_f";

/// The images of the attachment gallery.
pub const GALLERY_IMAGES: &'static str = ".pattl img.zoom";

/// The images inside the posts.
pub const INLINE_IMAGES: &'static str = "img.zoom";

/// The hidden part of the main post.
pub const HIDDEN_PART: &'static str = ".showhide";

/// The attachment blocks of the main post.
pub const ATTACHMENT_BLOCKS: &'static str = "ignore_js_op";

/// A comment on a post.
#[derive(Debug)]
pub struct PostComment {
    pub comment: String,
}

/// A post of the forum.
#[derive(Debug)]
pub struct Post {
    pub title: String,
    pub post: String,
    pub images: Vec<String>,
    pub hidden: String,
    pub content: Vec<String>,
    pub secret_content: Vec<String>,
    pub comments: Vec<PostComment>,
}

pub struct PostView {
    pub title: Seq<char>,
    pub post: Seq<char>,
    pub images: Seq<Seq<char>>,
    pub hidden: Seq<char>,
    pub content: Seq<Seq<char>>,
    pub secret_content: Seq<Seq<char>>,
    pub comments: Seq<Seq<char>>,
}

pub open spec fn comment_views(v: Seq<PostComment>) -> Seq<Seq<char>> {
    v.map_values(|c: PostComment| c.comment@)
}

impl View for Post {
    type V = PostView;

    open spec fn view(&self) -> PostView {
        PostView {
            title: self.title@,
            post: self.post@,
            images: views(self.images@),
            hidden: self.hidden@,
            content: views(self.content@),
            secret_content: views(self.secret_content@),
            comments: comment_views(self.comments@),
        }
    }
}

/// A line that gives away contact details: it names a chat account or a
/// phone, in one of the spellings the forum uses.
pub open spec fn is_secret_line(s: Seq<char>) -> bool {
    ||| occurs_in(s, "??????"@)
    ||| occurs_in(s, "QQ"@)
    ||| occurs_in(s, "qq"@)
    ||| occurs_in(s, "Qq"@)
    ||| occurs_in(s, "qQ"@)
    ||| occurs_in(s, "wx"@)
    ||| occurs_in(s, "WX"@)
    ||| occurs_in(s, "Wx"@)
    ||| occurs_in(s, "wX"@)
    ||| occurs_in(s, "tel"@)
    ||| occurs_in(s, "Tel"@)
    ||| occurs_in(s, "TEL"@)
}

/// The spellings that mark a line as giving away contact details.
pub open spec fn contact_words() -> Seq<Seq<char>> {
    seq![
        "??????"@,
        "QQ"@,
        "qq"@,
        "Qq"@,
        "qQ"@,
        "wx"@,
        "WX"@,
        "Wx"@,
        "wX"@,
        "tel"@,
        "Tel"@,
        "TEL"@,
    ]
}

/// A character that occurs in every contact spelling: each of them holds a
/// `?`, a `q`, an `x` or an `l`, in either case.
pub open spec fn contact_marker(c: char) -> bool {
    c == '?' || c == 'q' || c == 'Q' || c == 'x' || c == 'X' || c == 'l' || c == 'L'
}

proof fn lemma_missing_char_not_found(s: Seq<char>, t: Seq<char>, k: int)
    requires
        0 <= k < t.len(),
        forall|i: int| 0 <= i < s.len() ==> #[trigger] s[i] != t[k],
    ensures
        !occurs_in(s, t),
{
    assert forall|i: int| !occurs_at(s, t, i) by {
        if occurs_at(s, t, i) {
            assert(s.subrange(i, i + t.len())[k] == s[i + k]);
        }
    }
}

/// A line is secret exactly when one of the contact spellings occurs in it;
/// a line without any of the characters `? q Q x X l L` is never secret.
pub proof fn lemma_secret_exactly_with_contact_word(s: Seq<char>)
    ensures
        is_secret_line(s) <==> exists|k: int|
            0 <= k < contact_words().len() && occurs_in(s, #[trigger] contact_words()[k]),
        (forall|i: int| 0 <= i < s.len() ==> !contact_marker(#[trigger] s[i])) ==> !is_secret_line(
            s,
        ),
{
    reveal_strlit("??????");
    reveal_strlit("QQ");
    reveal_strlit("qq");
    reveal_strlit("Qq");
    reveal_strlit("qQ");
    reveal_strlit("wx");
    reveal_strlit("WX");
    reveal_strlit("Wx");
    reveal_strlit("wX");
    reveal_strlit("tel");
    reveal_strlit("Tel");
    reveal_strlit("TEL");
    let w = contact_words();
    assert(w[0] == "??????"@ && w[1] == "QQ"@ && w[2] == "qq"@ && w[3] == "Qq"@);
    assert(w[4] == "qQ"@ && w[5] == "wx"@ && w[6] == "WX"@ && w[7] == "Wx"@);
    assert(w[8] == "wX"@ && w[9] == "tel"@ && w[10] == "Tel"@ && w[11] == "TEL"@);
    if is_secret_line(s) {
        if occurs_in(s, w[0]) {
        } else if occurs_in(s, w[1]) {
        } else if occurs_in(s, w[2]) {
        } else if occurs_in(s, w[3]) {
        } else if occurs_in(s, w[4]) {
        } else if occurs_in(s, w[5]) {
        } else if occurs_in(s, w[6]) {
        } else if occurs_in(s, w[7]) {
        } else if occurs_in(s, w[8]) {
        } else if occurs_in(s, w[9]) {
        } else if occurs_in(s, w[10]) {
        } else {
            assert(occurs_in(s, w[11]));
        }
    }
    if forall|i: int| 0 <= i < s.len() ==> !contact_marker(#[trigger] s[i]) {
        lemma_missing_char_not_found(s, "??????"@, 0);
        lemma_missing_char_not_found(s, "QQ"@, 0);
        lemma_missing_char_not_found(s, "qq"@, 0);
        lemma_missing_char_not_found(s, "Qq"@, 0);
        lemma_missing_char_not_found(s, "qQ"@, 0);
        lemma_missing_char_not_found(s, "wx"@, 1);
        lemma_missing_char_not_found(s, "WX"@, 1);
        lemma_missing_char_not_found(s, "Wx"@, 1);
        lemma_missing_char_not_found(s, "wX"@, 1);
        lemma_missing_char_not_found(s, "tel"@, 2);
        lemma_missing_char_not_found(s, "Tel"@, 2);
        lemma_missing_char_not_found(s, "TEL"@, 2);
    }
}

/// Whether `line` gives away contact details.
pub fn is_secret(line: &str) -> (b: bool)
    ensures
        b == is_secret_line(line@),
{
    contains(line, "??????") || contains(line, "QQ") || contains(line, "qq") || contains(
        line,
        "Qq",
    ) || contains(line, "qQ") || contains(line, "wx") || contains(line, "WX") || contains(
        line,
        "Wx",
    ) || contains(line, "wX") || contains(line, "tel") || contains(line, "Tel") || contains(
        line,
        "TEL",
    )
}

/// The lines `lines` with surrounding white space removed, blank ones left out.
pub open spec fn nonblank_lines(lines: Seq<Seq<char>>) -> Seq<Seq<char>>
    decreases lines.len(),
{
    if lines.len() == 0 {
        Seq::empty()
    } else {
        let rest = nonblank_lines(lines.drop_last());
        let t = trimmed(lines.last());
        if t.len() > 0 {
            rest.push(t)
        } else {
            rest
        }
    }
}

/// The lines of a text with surrounding white space removed, blank ones left out.
pub open spec fn kept_lines(text: Seq<char>) -> Seq<Seq<char>> {
    nonblank_lines(split_on(text, '\n'))
}

/// The lines that give away contact details, in order.
pub open spec fn secret_lines(lines: Seq<Seq<char>>) -> Seq<Seq<char>>
    decreases lines.len(),
{
    if lines.len() == 0 {
        Seq::empty()
    } else if is_secret_line(lines.last()) {
        secret_lines(lines.drop_last()).push(lines.last())
    } else {
        secret_lines(lines.drop_last())
    }
}

/// The other lines, in order.
pub open spec fn public_lines(lines: Seq<Seq<char>>) -> Seq<Seq<char>>
    decreases lines.len(),
{
    if lines.len() == 0 {
        Seq::empty()
    } else if is_secret_line(lines.last()) {
        public_lines(lines.drop_last())
    } else {
        public_lines(lines.drop_last()).push(lines.last())
    }
}

/// Every line kept from a text is non-blank and has no white space at either
/// end.
pub proof fn lemma_kept_lines_clean(lines: Seq<Seq<char>>)
    ensures
        forall|i: int|
            0 <= i < nonblank_lines(lines).len() ==> (#[trigger] nonblank_lines(lines)[i]).len() > 0
                && trimmed(nonblank_lines(lines)[i]) == nonblank_lines(lines)[i],
    decreases lines.len(),
{
    if lines.len() > 0 {
        let rest = nonblank_lines(lines.drop_last());
        lemma_kept_lines_clean(lines.drop_last());
        crate::text::lemma_trimmed_idempotent(lines.last());
        assert forall|i: int| 0 <= i < nonblank_lines(lines).len() implies (
        #[trigger] nonblank_lines(lines)[i]).len() > 0 && trimmed(nonblank_lines(lines)[i])
            == nonblank_lines(lines)[i] by {
            if i < rest.len() {
                assert(nonblank_lines(lines)[i] == rest[i]);
            }
        }
    }
}

/// The contact-detail split is a partition: each line lands on exactly one
/// side, the secret side holding exactly the lines that give away contact
/// details; together the two sides hold the lines, each as often as in `lines`.
pub proof fn lemma_lines_partitioned(lines: Seq<Seq<char>>)
    ensures
        secret_lines(lines).to_multiset().add(public_lines(lines).to_multiset())
            =~= lines.to_multiset(),
        secret_lines(lines).len() + public_lines(lines).len() == lines.len(),
        forall|i: int|
            0 <= i < secret_lines(lines).len() ==> is_secret_line(#[trigger] secret_lines(lines)[i]),
        forall|i: int|
            0 <= i < public_lines(lines).len() ==> !is_secret_line(#[trigger] public_lines(lines)[i]),
    decreases lines.len(),
{
    broadcast use vstd::seq_lib::group_to_multiset_ensures;

    if lines.len() == 0 {
        assert(lines.to_multiset() =~= vstd::multiset::Multiset::empty());
    } else {
        let rest = lines.drop_last();
        lemma_lines_partitioned(rest);
        assert(rest.push(lines.last()) =~= lines);
    }
}

/// The non-blank lines of `text`, trimmed, in order.
pub fn content_lines(text: &str) -> (r: Vec<String>)
    ensures
        views(r@) == kept_lines(text@),
{
    let pieces = split_char(text, '\n');
    let ghost all = views(pieces@);
    let mut out: Vec<String> = Vec::new();
    let mut i: usize = 0;
    assert(all.take(0) =~= Seq::<Seq<char>>::empty());
    assert(views(out@) =~= Seq::<Seq<char>>::empty());
    while i < pieces.len()
        invariant
            i <= pieces.len(),
            all == views(pieces@),
            views(out@) == nonblank_lines(all.take(i as int)),
        decreases pieces.len() - i,
    {
        assert(all.take(i + 1).drop_last() =~= all.take(i as int));
        assert(all.take(i + 1).last() == pieces@[i as int]@);
        let line = trim(pieces[i].as_str());
        if !line.as_str().is_empty() {
            let ghost before = views(out@);
            out.push(line);
            assert(views(out@) =~= before.push(trimmed(pieces@[i as int]@)));
        }
        i = i + 1;
    }
    assert(all.take(pieces.len() as int) =~= all);
    out
}

/// `lines` split into those that give away contact details and the others,
/// each in order.
pub fn partition_lines(lines: Vec<String>) -> (r: (Vec<String>, Vec<String>))
    ensures
        views(r.0@) == secret_lines(views(lines@)),
        views(r.1@) == public_lines(views(lines@)),
{
    let ghost all = views(lines@);
    let mut secret: Vec<String> = Vec::new();
    let mut public: Vec<String> = Vec::new();
    let mut i: usize = 0;
    assert(all.take(0) =~= Seq::<Seq<char>>::empty());
    assert(views(secret@) =~= Seq::<Seq<char>>::empty());
    assert(views(public@) =~= Seq::<Seq<char>>::empty());
    while i < lines.len()
        invariant
            i <= lines.len(),
            all == views(lines@),
            views(secret@) == secret_lines(all.take(i as int)),
            views(public@) == public_lines(all.take(i as int)),
        decreases lines.len() - i,
    {
        assert(all.take(i + 1).drop_last() =~= all.take(i as int));
        assert(all.take(i + 1).last() == lines@[i as int]@);
        if is_secret(lines[i].as_str()) {
            let ghost before = views(secret@);
            secret.push(lines[i].clone());
            assert(views(secret@) =~= before.push(lines@[i as int]@));
        } else {
            let ghost before = views(public@);
            public.push(lines[i].clone());
            assert(views(public@) =~= before.push(lines@[i as int]@));
        }
        i = i + 1;
    }
    assert(all.take(lines.len() as int) =~= all);
    (secret, public)
}

/// The values of attribute `name` of the elements `nodes` that have it, in order.
pub open spec fn present_attrs(
    source: Seq<char>,
    removed: Seq<usize>,
    nodes: Seq<usize>,
    name: Seq<char>,
) -> Seq<Seq<char>>
    decreases nodes.len(),
{
    if nodes.len() == 0 {
        Seq::empty()
    } else {
        let rest = present_attrs(source, removed, nodes.drop_last(), name);
        match element_attr(source, removed, nodes.last(), name) {
            Some(v) => rest.push(v),
            None => rest,
        }
    }
}

/// The texts of the elements `nodes`, one entry each, in order.
pub open spec fn texts_of(source: Seq<char>, removed: Seq<usize>, nodes: Seq<usize>) -> Seq<Seq<char>>
    decreases nodes.len(),
{
    if nodes.len() == 0 {
        Seq::empty()
    } else {
        texts_of(source, removed, nodes.drop_last()).push(element_text(source, removed, nodes.last()))
    }
}

/// The post that the post page `html` shows.
pub open spec fn post_of(html: Seq<char>) -> Result<PostView, CatcherError> {
    let none = Seq::<usize>::empty();
    let posts = document_matches(html, none, THREAD_POSTS@);
    if posts.len() == 0 {
        Err(CatcherError::MissingMainPost)
    } else {
        let gallery = document_matches(html, none, GALLERY_IMAGES@);
        let images = if gallery.len() > 0 {
            present_attrs(html, none, gallery, "file"@)
        } else {
            present_attrs(html, none, selection_matches(html, none, posts, INLINE_IMAGES@), "file"@)
        };
        let main = posts[0];
        let attachments = descendant_matches(html, none, main, ATTACHMENT_BLOCKS@);
        let after = attachments + descendant_matches(html, attachments, main, HIDDEN_PART@);
        let lines = kept_lines(element_text(html, after, main));
        Ok(
            PostView {
                title: selection_text(html, none, document_matches(html, none, THREAD_SUBJECT@)),
                post: element_html(html, after, main),
                images,
                hidden: selection_text(html, none, descendant_matches(html, none, main, HIDDEN_PART@)),
                content: public_lines(lines),
                secret_content: secret_lines(lines),
                comments: texts_of(html, none, posts.drop_first()),
            },
        )
    }
}

/// The attribute values that `present_attrs` collects are exactly the values
/// of attribute `name` of those elements of `nodes` that have it.
pub proof fn lemma_present_attrs_exact(
    source: Seq<char>,
    removed: Seq<usize>,
    nodes: Seq<usize>,
    name: Seq<char>,
)
    ensures
        forall|i: int|
            0 <= i < nodes.len() && #[trigger] element_attr(source, removed, nodes[i], name) is Some
                ==> present_attrs(source, removed, nodes, name).contains(
                element_attr(source, removed, nodes[i], name)->0,
            ),
        forall|v: Seq<char>| #[trigger]
            present_attrs(source, removed, nodes, name).contains(v) ==> exists|i: int|
                0 <= i < nodes.len() && #[trigger] element_attr(source, removed, nodes[i], name)
                    == Some(v),
    decreases nodes.len(),
{
    if nodes.len() > 0 {
        let init = nodes.drop_last();
        let rest = present_attrs(source, removed, init, name);
        let all = present_attrs(source, removed, nodes, name);
        lemma_present_attrs_exact(source, removed, init, name);
        match element_attr(source, removed, nodes.last(), name) {
            Some(x) => assert(all == rest.push(x)),
            None => assert(all == rest),
        }
        assert forall|i: int|
            0 <= i < nodes.len() && #[trigger] element_attr(source, removed, nodes[i], name) is Some
                implies all.contains(element_attr(source, removed, nodes[i], name)->0) by {
            let v = element_attr(source, removed, nodes[i], name)->0;
            if i < init.len() {
                assert(init[i] == nodes[i]);
                let p = choose|p: int| 0 <= p < rest.len() && rest[p] == v;
                assert(all[p] == v);
            } else {
                assert(all[all.len() - 1] == v);
            }
        }
        assert forall|v: Seq<char>| #[trigger] all.contains(v) implies exists|i: int|
            0 <= i < nodes.len() && #[trigger] element_attr(source, removed, nodes[i], name)
                == Some(v) by {
            let p = choose|p: int| 0 <= p < all.len() && all[p] == v;
            if p < rest.len() {
                assert(rest[p] == v);
                assert(rest.contains(v));
                let i = choose|i: int|
                    0 <= i < init.len() && #[trigger] element_attr(source, removed, init[i], name)
                        == Some(v);
                assert(init[i] == nodes[i]);
            } else {
                assert(nodes[nodes.len() - 1] == nodes.last());
                assert(element_attr(source, removed, nodes[nodes.len() - 1], name) == Some(v));
            }
        }
    }
}

/// `images` are the `file` addresses of the inline images of all posts
/// `posts`: each inline image of each post that has an address gives one of
/// them, and each of them is the address of an inline image of some post.
pub open spec fn inline_images_of_posts(
    source: Seq<char>,
    posts: Seq<usize>,
    images: Seq<Seq<char>>,
) -> bool {
    let none = Seq::<usize>::empty();
    &&& forall|k: int, j: int|
        0 <= k < posts.len() && 0 <= j < descendant_matches(
            source,
            none,
            posts[k],
            INLINE_IMAGES@,
        ).len() && element_attr(
            source,
            none,
            #[trigger] descendant_matches(source, none, posts[k], INLINE_IMAGES@)[j],
            "file"@,
        ) is Some ==> images.contains(
            element_attr(
                source,
                none,
                descendant_matches(source, none, posts[k], INLINE_IMAGES@)[j],
                "file"@,
            )->0,
        )
    &&& forall|v: Seq<char>| #[trigger]
        images.contains(v) ==> exists|k: int, x: usize|
            0 <= k < posts.len() && #[trigger] descendant_matches(
                source,
                none,
                posts[k],
                INLINE_IMAGES@,
            ).contains(x) && #[trigger] element_attr(source, none, x, "file"@) == Some(v)
}

/// Without gallery images, the images of a forum post are the `file`
/// addresses of the inline images of every post of the page, the main post
/// and all replies alike.
pub proof fn lemma_images_from_every_post(html: Seq<char>)
    ensures
        post_of(html) matches Ok(p) ==> (document_matches(html, Seq::empty(), GALLERY_IMAGES@).len()
            == 0 ==> inline_images_of_posts(
            html,
            document_matches(html, Seq::empty(), THREAD_POSTS@),
            p.images,
        )),
{
    let none = Seq::<usize>::empty();
    let posts = document_matches(html, none, THREAD_POSTS@);
    let inline = selection_matches(html, none, posts, INLINE_IMAGES@);
    let images = present_attrs(html, none, inline, "file"@);
    if posts.len() > 0 && document_matches(html, none, GALLERY_IMAGES@).len() == 0 {
        lemma_selection_matches_all(html, none, posts, INLINE_IMAGES@);
        lemma_present_attrs_exact(html, none, inline, "file"@);
        assert forall|k: int, j: int|
            0 <= k < posts.len() && 0 <= j < descendant_matches(
                html,
                none,
                posts[k],
                INLINE_IMAGES@,
            ).len() && element_attr(
                html,
                none,
                #[trigger] descendant_matches(html, none, posts[k], INLINE_IMAGES@)[j],
                "file"@,
            ) is Some implies images.contains(
            element_attr(
                html,
                none,
                descendant_matches(html, none, posts[k], INLINE_IMAGES@)[j],
                "file"@,
            )->0,
        ) by {
            let x = descendant_matches(html, none, posts[k], INLINE_IMAGES@)[j];
            assert(inline.contains(x));
            let i = choose|i: int| 0 <= i < inline.len() && inline[i] == x;
            assert(element_attr(html, none, inline[i], "file"@) is Some);
        }
        assert forall|v: Seq<char>| #[trigger] images.contains(v) implies exists|k: int, x: usize|
            0 <= k < posts.len() && #[trigger] descendant_matches(
                html,
                none,
                posts[k],
                INLINE_IMAGES@,
            ).contains(x) && #[trigger] element_attr(html, none, x, "file"@) == Some(v) by {
            let i = choose|i: int|
                0 <= i < inline.len() && #[trigger] element_attr(html, none, inline[i], "file"@)
                    == Some(v);
            assert(inline.contains(inline[i]));
            let k = choose|k: int|
                0 <= k < posts.len() && #[trigger] descendant_matches(
                    html,
                    none,
                    posts[k],
                    INLINE_IMAGES@,
                ).contains(inline[i]);
        }
    }
}

/// All selectors of the post page are accepted by `nipper`.
pub open spec fn post_selectors_ok() -> bool {
    &&& css_selector_ok(THREAD_SUBJECT@)
    &&& css_selector_ok(THREAD_POSTS@)
    &&& css_selector_ok(GALLERY_IMAGES@)
    &&& css_selector_ok(INLINE_IMAGES@)
    &&& css_selector_ok(HIDDEN_PART@)
    &&& css_selector_ok(ATTACHMENT_BLOCKS@)
}

fn attrs_present(page: &Page, nodes: &Vec<usize>, name: &str) -> (r: Vec<String>)
    requires
        page.valid(nodes@),
    ensures
        views(r@) == present_attrs(page.source(), page.removed(), nodes@, name@),
{
    let mut out: Vec<String> = Vec::new();
    let mut i: usize = 0;
    assert(nodes@.take(0) =~= Seq::<usize>::empty());
    assert(views(out@) =~= Seq::<Seq<char>>::empty());
    while i < nodes.len()
        invariant
            i <= nodes.len(),
            page.valid(nodes@),
            views(out@) == present_attrs(page.source(), page.removed(), nodes@.take(i as int), name@),
        decreases nodes.len() - i,
    {
        assert(nodes@.take(i + 1).drop_last() =~= nodes@.take(i as int));
        assert(nodes@.take(i + 1).last() == nodes@[i as int]);
        match page.element_attr(nodes[i], name) {
            Some(v) => {
                let ghost before = views(out@);
                out.push(v);
                assert(views(out@) =~= before.push(v@));
            },
            None => {},
        }
        i = i + 1;
    }
    assert(nodes@.take(nodes.len() as int) =~= nodes@);
    out
}

fn comments_of(page: &Page, posts: &Vec<usize>) -> (r: Vec<PostComment>)
    requires
        page.valid(posts@),
        posts.len() > 0,
    ensures
        comment_views(r@) == texts_of(page.source(), page.removed(), posts@.drop_first()),
{
    let ghost rest = posts@.drop_first();
    let mut out: Vec<PostComment> = Vec::new();
    let mut i: usize = 1;
    assert(rest.take(0) =~= Seq::<usize>::empty());
    assert(comment_views(out@) =~= Seq::<Seq<char>>::empty());
    while i < posts.len()
        invariant
            1 <= i <= posts.len(),
            page.valid(posts@),
            rest == posts@.drop_first(),
            comment_views(out@) == texts_of(page.source(), page.removed(), rest.take(i - 1)),
        decreases posts.len() - i,
    {
        assert(rest.take(i as int).drop_last() =~= rest.take(i - 1));
        assert(rest.take(i as int).last() == posts@[i as int]);
        let comment = page.element_text(posts[i]);
        let ghost before = comment_views(out@);
        out.push(PostComment { comment });
        assert(comment_views(out@) =~= before.push(element_text(page.source(), page.removed(), posts@[i as int])));
        i = i + 1;
    }
    assert(rest.take(posts.len() - 1) =~= rest);
    out
}

/// The post shown on the post page `html`; `None` where `nipper` would reject
/// one of the selectors (where the catcher panics).
pub fn post(html: &str) -> (r: Option<Result<Post, CatcherError>>)
    ensures
        r is Some <==> post_selectors_ok(),
        r matches Some(x) ==> match post_of(html@) {
            Ok(p) => x matches Ok(q) && q@ == p,
            Err(_) => x matches Err(CatcherError::MissingMainPost),
        },
{
    if !selector_is_valid(THREAD_SUBJECT) || !selector_is_valid(THREAD_POSTS) || !selector_is_valid(
        GALLERY_IMAGES,
    ) || !selector_is_valid(INLINE_IMAGES) || !selector_is_valid(HIDDEN_PART)
        || !selector_is_valid(ATTACHMENT_BLOCKS) {
        return None;
    }
    let mut page = Page::parse(html);
    let subject = page.select(THREAD_SUBJECT);
    let title = page.text_of(&subject);
    let posts = page.select(THREAD_POSTS);
    let gallery = page.select(GALLERY_IMAGES);
    let images = if gallery.len() > 0 {
        attrs_present(&page, &gallery, "file")
    } else {
        let inline = page.select_within(&posts, INLINE_IMAGES);
        attrs_present(&page, &inline, "file")
    };
    if posts.len() == 0 {
        return Some(Err(CatcherError::MissingMainPost));
    }
    let main = posts[0];
    let comments = comments_of(&page, &posts);
    let hidden_nodes = page.select_under(main, HIDDEN_PART);
    let hidden = page.text_of(&hidden_nodes);
    let attachments = page.select_under(main, ATTACHMENT_BLOCKS);
    page.remove_all(&attachments);
    let hidden_now = page.select_under(main, HIDDEN_PART);
    page.remove_all(&hidden_now);
    let text = page.element_text(main);
    let lines = content_lines(text.as_str());
    let (secret_content, content) = partition_lines(lines);
    let post_html = page.element_html(main);
    Some(
        Ok(
            Post {
                title,
                post: post_html,
                images,
                hidden,
                content,
                secret_content,
                comments,
            },
        ),
    )
}

} // verus!
