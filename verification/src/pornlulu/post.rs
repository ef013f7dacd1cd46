//! The page of a single post.
//!
//! The video address sits in an obfuscated script on the page. Reading the
//! page gives the post without its source and the script expression to
//! evaluate; the evaluated script then gives the source.
use vstd::prelude::*;

use crate::html::{
    css_selector_ok, document_matches, element_attr, element_text, last_of, selection_attr,
    selection_text, selector_is_valid, Page,
};
use crate::pattern::{first_capture, regex_capture};
use crate::text::{free_of, join, joined, lemma_split_joined, split_on, trim, trimmed};

verus! {

/// The tag links of a post.
pub const TAG_LINKS: &'static str = ".container-fluid > .d-none > a";

/// The title link of a post.
pub const TITLE_LINK: &'static str = "body > div.wrapper > div.content-wrapper > div > div > h1 > a";

/// The description meta tag.
pub const DESCRIPTION_META: &'static str = "meta[name=description]";

/// The scripts of the player; the last one holds the video address.
pub const PLAYER_SCRIPTS: &'static str = ".container-fluid > div.fullwidth > script";

/// The pattern whose first group is the obfuscated expression of the script.
pub const SCRIPT_PATTERN: &'static str = "eval\\((.*)\\)";

/// The pattern whose first group, in the evaluated script, is the video address.
pub const SOURCE_PATTERN: &'static str = "src:'(.*?)'";

/// A tag of a post.
#[derive(Debug)]
pub struct PostTagRawItem {
    pub name: String,
    pub href: String,
}

pub struct PostTagView {
    pub name: Seq<char>,
    pub href: Seq<char>,
}

impl View for PostTagRawItem {
    type V = PostTagView;

    open spec fn view(&self) -> PostTagView {
        PostTagView { name: self.name@, href: self.href@ }
    }
}

pub open spec fn tag_views(v: Seq<PostTagRawItem>) -> Seq<PostTagView> {
    v.map_values(|t: PostTagRawItem| t@)
}

/// The names of tags.
pub open spec fn tag_names(v: Seq<PostTagView>) -> Seq<Seq<char>> {
    v.map_values(|t: PostTagView| t.name)
}

/// A post without its video address.
#[derive(Debug)]
pub struct PostDraft {
    pub title: String,
    pub keywords: String,
    pub description: String,
    pub tags: Vec<PostTagRawItem>,
}

pub struct PostDraftView {
    pub title: Seq<char>,
    pub keywords: Seq<char>,
    pub description: Seq<char>,
    pub tags: Seq<PostTagView>,
}

impl View for PostDraft {
    type V = PostDraftView;

    open spec fn view(&self) -> PostDraftView {
        PostDraftView {
            title: self.title@,
            keywords: self.keywords@,
            description: self.description@,
            tags: tag_views(self.tags@),
        }
    }
}

/// A post.
#[derive(Debug)]
pub struct PostRaw {
    pub title: String,
    pub keywords: String,
    pub description: String,
    pub source: String,
    pub tags: Vec<PostTagRawItem>,
}

pub struct PostRawView {
    pub title: Seq<char>,
    pub keywords: Seq<char>,
    pub description: Seq<char>,
    pub source: Seq<char>,
    pub tags: Seq<PostTagView>,
}

impl View for PostRaw {
    type V = PostRawView;

    open spec fn view(&self) -> PostRawView {
        PostRawView {
            title: self.title@,
            keywords: self.keywords@,
            description: self.description@,
            source: self.source@,
            tags: tag_views(self.tags@),
        }
    }
}

/// Why a post page could not be read.
#[derive(Debug)]
pub enum PostError {
    /// The player script holds no `eval(...)` expression.
    ScriptCaptureFailed,
    /// The evaluated script holds no `src:'...'` address.
    SourceCaptureFailed,
}

/// What reading a post page gives.
#[derive(Debug)]
pub enum PostStep {
    /// The page has no player script: there is no post.
    Missing,
    /// The page holds the post `draft`; `expression` is the script to evaluate.
    Evaluate { draft: PostDraft, expression: String },
}

/// The tag of tag link `node`: none where it has no address or no text.
pub open spec fn tag_of_link(source: Seq<char>, removed: Seq<usize>, node: usize) -> Option<
    PostTagView,
> {
    match element_attr(source, removed, node, "href"@) {
        Some(href) => {
            let name = element_text(source, removed, node);
            if name.len() == 0 {
                None
            } else {
                Some(PostTagView { name, href })
            }
        },
        None => None,
    }
}

/// The tags of the tag links `links`, in order.
pub open spec fn tags_of_links(source: Seq<char>, removed: Seq<usize>, links: Seq<usize>) -> Seq<
    PostTagView,
>
    decreases links.len(),
{
    if links.len() == 0 {
        Seq::empty()
    } else {
        let rest = tags_of_links(source, removed, links.drop_last());
        match tag_of_link(source, removed, links.last()) {
            Some(t) => rest.push(t),
            None => rest,
        }
    }
}

/// The post of page `html`, without its video address.
pub open spec fn draft_of(html: Seq<char>) -> PostDraftView {
    let none = Seq::<usize>::empty();
    let links = document_matches(html, none, TAG_LINKS@);
    let tags = if links.len() > 0 {
        tags_of_links(html, none, links)
    } else {
        Seq::empty()
    };
    PostDraftView {
        title: trimmed(selection_text(html, none, document_matches(html, none, TITLE_LINK@))),
        keywords: joined(tag_names(tags), ","@),
        description: match selection_attr(
            html,
            none,
            document_matches(html, none, DESCRIPTION_META@),
            "content"@,
        ) {
            Some(d) => d,
            None => Seq::empty(),
        },
        tags,
    }
}

/// The keywords of a post name every one of its tags: a post without tags
/// has no keywords, and where no tag name holds a comma, the keywords split
/// at their commas are the tag names, one piece per tag, in order.
pub proof fn lemma_keywords_name_every_tag(html: Seq<char>)
    ensures
        draft_of(html).tags.len() == 0 ==> draft_of(html).keywords.len() == 0,
        draft_of(html).tags.len() > 0 && (forall|k: int|
            0 <= k < draft_of(html).tags.len() ==> free_of(
                #[trigger] draft_of(html).tags[k].name,
                ',',
            )) ==> split_on(draft_of(html).keywords, ',') == tag_names(draft_of(html).tags),
{
    reveal_strlit(",");
    assert(","@ =~= seq![',']);
    let tags = draft_of(html).tags;
    let names = tag_names(tags);
    if tags.len() > 0 && (forall|k: int| 0 <= k < tags.len() ==> free_of(#[trigger] tags[k].name, ',')) {
        assert forall|k: int| 0 <= k < names.len() implies free_of(#[trigger] names[k], ',') by {
            assert(names[k] == tags[k].name);
        }
        lemma_split_joined(names, ',');
    }
}

/// The expression to evaluate for a player script: the captured `eval`
/// argument in parentheses.
pub open spec fn expression_of(capture: Seq<char>) -> Seq<char> {
    "("@ + capture + ")"@
}

/// All selectors of the post page are accepted by `nipper`.
pub open spec fn post_selectors_ok() -> bool {
    &&& css_selector_ok(TAG_LINKS@)
    &&& css_selector_ok(TITLE_LINK@)
    &&& css_selector_ok(DESCRIPTION_META@)
    &&& css_selector_ok(PLAYER_SCRIPTS@)
}

/// The text of the player script of page `html`, if the page has one.
pub open spec fn player_script_of(html: Seq<char>) -> Option<Seq<char>> {
    let none = Seq::<usize>::empty();
    let script = last_of(document_matches(html, none, PLAYER_SCRIPTS@));
    if script.len() > 0 {
        Some(selection_text(html, none, script))
    } else {
        None
    }
}

fn tag_from_link(page: &Page, node: usize) -> (r: Option<PostTagRawItem>)
    requires
        node < page.element_count(),
    ensures
        match r {
            Some(t) => tag_of_link(page.source(), page.removed(), node) == Some(t@),
            None => tag_of_link(page.source(), page.removed(), node) is None,
        },
{
    proof {
        reveal_strlit("href");
    }
    match page.element_attr(node, "href") {
        Some(href) => {
            let name = page.element_text(node);
            if name.as_str().is_empty() {
                None
            } else {
                Some(PostTagRawItem { name, href })
            }
        },
        None => None,
    }
}

/// The names of `tags`, in order.
fn names_of(tags: &Vec<PostTagRawItem>) -> (r: Vec<String>)
    ensures
        crate::text::views(r@) == tag_names(tag_views(tags@)),
{
    let mut r: Vec<String> = Vec::new();
    let mut i: usize = 0;
    while i < tags.len()
        invariant
            i <= tags.len(),
            crate::text::views(r@) == tag_names(tag_views(tags@)).take(i as int),
        decreases tags.len() - i,
    {
        let ghost before = crate::text::views(r@);
        r.push(tags[i].name.clone());
        assert(crate::text::views(r@) =~= before.push(tags@[i as int].name@));
        assert(tag_names(tag_views(tags@)).take(i + 1) =~= tag_names(tag_views(tags@)).take(
            i as int,
        ).push(tags@[i as int].name@));
        i = i + 1;
    }
    assert(tag_names(tag_views(tags@)).take(tags.len() as int) =~= tag_names(tag_views(tags@)));
    r
}

/// The post of `page` without its video address.
fn draft_from_page(page: &Page) -> (d: PostDraft)
    requires
        page.removed() == Seq::<usize>::empty(),
        post_selectors_ok(),
    ensures
        d@ == draft_of(page.source()),
{
    proof {
        reveal_strlit("content");
    }
    let links = page.select(TAG_LINKS);
    let mut tags: Vec<PostTagRawItem> = Vec::new();
    if links.len() > 0 {
        let mut i: usize = 0;
        assert(links@.take(0) =~= Seq::<usize>::empty());
        assert(tag_views(tags@) =~= Seq::<PostTagView>::empty());
        while i < links.len()
            invariant
                i <= links.len(),
                page.valid(links@),
                tag_views(tags@) == tags_of_links(
                    page.source(),
                    page.removed(),
                    links@.take(i as int),
                ),
            decreases links.len() - i,
        {
            assert(links@.take(i + 1).drop_last() =~= links@.take(i as int));
            assert(links@.take(i + 1).last() == links@[i as int]);
            match tag_from_link(page, links[i]) {
                Some(t) => {
                    let ghost before = tag_views(tags@);
                    tags.push(t);
                    assert(tag_views(tags@) =~= before.push(t@));
                },
                None => {},
            }
            i = i + 1;
        }
        assert(links@.take(links.len() as int) =~= links@);
    } else {
        assert(tag_views(tags@) =~= Seq::<PostTagView>::empty());
    }
    let title_links = page.select(TITLE_LINK);
    let title = trim(page.text_of(&title_links).as_str());
    let names = names_of(&tags);
    proof {
        reveal_strlit(",");
    }
    let keywords = join(&names, ",");
    let metas = page.select(DESCRIPTION_META);
    let description = page.attr_or(&metas, "content", "");
    proof {
        reveal_strlit("");
    }
    assert(""@ =~= Seq::<char>::empty());
    PostDraft { title, keywords, description, tags }
}

/// Reads a post page: `None` where `nipper` would reject one of the
/// selectors (where the scraper panics); `Missing` where the page has no
/// player script; the error where the script holds no `eval(...)`; else the
/// post without its address and the expression to evaluate.
pub fn read_post_page(html: &str) -> (r: Option<Result<PostStep, PostError>>)
    ensures
        r is Some <==> post_selectors_ok(),
        r matches Some(s) ==> match player_script_of(html@) {
            None => s matches Ok(PostStep::Missing),
            Some(script) => match regex_capture(SCRIPT_PATTERN@, script, 1) {
                None => s matches Err(PostError::ScriptCaptureFailed),
                Some(c) => s matches Ok(PostStep::Evaluate { draft, expression }) && draft@
                    == draft_of(html@) && expression@ == expression_of(c),
            },
        },
{
    if !selector_is_valid(TAG_LINKS) || !selector_is_valid(TITLE_LINK) || !selector_is_valid(
        DESCRIPTION_META,
    ) || !selector_is_valid(PLAYER_SCRIPTS) {
        return None;
    }
    let page = Page::parse(html);
    let draft = draft_from_page(&page);
    let scripts = page.select(PLAYER_SCRIPTS);
    let script = crate::html::last(&scripts);
    if script.len() == 0 {
        return Some(Ok(PostStep::Missing));
    }
    let text = page.text_of(&script);
    match first_capture(SCRIPT_PATTERN, text.as_str(), 1) {
        None => Some(Err(PostError::ScriptCaptureFailed)),
        Some(c) => {
            let mut expression = String::new();
            expression.append("(");
            expression.append(c.as_str());
            expression.append(")");
            proof {
                reveal_strlit("(");
                reveal_strlit(")");
            }
            Some(Ok(PostStep::Evaluate { draft, expression }))
        },
    }
}

/// The post from its draft and the evaluated player script: its video
/// address is the first `src:'...'` in the script.
pub fn finish_post(draft: PostDraft, evaluated: &str) -> (r: Result<PostRaw, PostError>)
    ensures
        match regex_capture(SOURCE_PATTERN@, evaluated@, 1) {
            None => r matches Err(PostError::SourceCaptureFailed),
            Some(s) => r matches Ok(p) && p@ == (PostRawView {
                title: draft@.title,
                keywords: draft@.keywords,
                description: draft@.description,
                source: s,
                tags: draft@.tags,
            }),
        },
{
    match first_capture(SOURCE_PATTERN, evaluated, 1) {
        None => Err(PostError::SourceCaptureFailed),
        Some(source) => Ok(
            PostRaw {
                title: draft.title,
                keywords: draft.keywords,
                description: draft.description,
                source,
                tags: draft.tags,
            },
        ),
    }
}

impl PostError {
    /// The message the error is reported with.
    pub fn message(&self) -> (m: String)
        ensures
            m@ == match self {
                PostError::ScriptCaptureFailed => "Captures (full script -> confuse script) failed."@,
                PostError::SourceCaptureFailed => "Captures (actual script -> source) failed."@,
            },
    {
        match self {
            PostError::ScriptCaptureFailed => "Captures (full script -> confuse script) failed.".to_owned(),
            PostError::SourceCaptureFailed => "Captures (actual script -> source) failed.".to_owned(),
        }
    }
}

} // verus!
