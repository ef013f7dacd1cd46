use paradise_proxy::pornlulu::category::{category_from_link, category_id_from_digits, category_list, keep_link};
use paradise_proxy::pornlulu::list::{page_number, post_from_capture, post_from_link, post_list};
use paradise_proxy::pornlulu::post::{finish_post, read_post_page, PostError, PostStep};
use paradise_proxy::pornlulu::respond::{
    category_entries, post_details, post_list_page, post_list_url, post_url,
};

const CATEGORY_PAGE: &str = r#"<html><body>
<div class="content-wrapper"><div class="content"><div class="container-fluid"><div class="row">
  <div><a href="/zh-hans/cat/119">Amateur</a></div>
  <div><a href="/zh-hans/cat/abc">NoDigits</a></div>
  <div><span>no link</span></div>
  <div><a>no href</a></div>
  <div><a href="/cat/7"></a></div>
  <div><a href="/cat/99999999999">Big</a></div>
  <div><a href="/cat/٤٢">Arabic</a></div>
  <div><a href="/cat/12?page=3">Twelve</a><a href="/other">More</a></div>
</div></div></div></div>
</body></html>"#;

#[test]
fn category_list_reads_blocks() {
    let items = category_list(CATEGORY_PAGE).unwrap();
    let got: Vec<(u32, String, String)> =
        items.into_iter().map(|c| (c.category_id, c.name, c.href)).collect();
    assert_eq!(
        got,
        vec![
            (119, "Amateur".to_string(), "/zh-hans/cat/119".to_string()),
            (0, "NoDigits".to_string(), "/zh-hans/cat/abc".to_string()),
            (0, "Big".to_string(), "/cat/99999999999".to_string()),
            (0, "Arabic".to_string(), "/cat/٤٢".to_string()),
            (12, "TwelveMore".to_string(), "/cat/12?page=3".to_string()),
        ]
    );
}

#[test]
fn category_list_without_blocks_is_empty() {
    assert_eq!(category_list("<html><body><p>nothing</p></body></html>").unwrap().len(), 0);
}

#[test]
fn category_id_from_first_digits() {
    assert_eq!(category_id_from_digits(Some("42".to_string())), 42);
    assert_eq!(category_id_from_digits(Some("4294967296".to_string())), 0);
    assert_eq!(category_id_from_digits(None), 0);
    let c = category_from_link("/cat/7/page/9".to_string(), "Seven".to_string());
    assert_eq!(c.category_id, 7);
    assert_eq!(c.name, "Seven");
    assert_eq!(c.href, "/cat/7/page/9");
}

#[test]
fn keep_link_needs_address_and_text() {
    assert!(keep_link(true, &Some("/x".to_string()), &"t".to_string()));
    assert!(!keep_link(false, &Some("/x".to_string()), &"t".to_string()));
    assert!(!keep_link(true, &None, &"t".to_string()));
    assert!(!keep_link(true, &Some("/x".to_string()), &String::new()));
}

const LIST_PAGE: &str = r#"<html><body>
<div id="videos">
  <div><a class="visited" href="/zh-hans/v/abc123"><img data-src="http://img/1.jpg"></a><a class="visited" href="/zh-hans/v/abc123">Title One</a></div>
  <div><a class="visited" href="/x/nothing"><img data-src="c2"></a><a class="visited">T2</a></div>
  <div><a class="visited" href="/v/zz"><img src="x"></a><a class="visited">T3</a></div>
  <div><a class="visited" href="/v/yy"><img data-src="c4"></a><a class="visited"></a></div>
  <div><a class="visited"><img data-src="c5"></a><a class="visited">T5</a></div>
  <div><a class="visited" href="/v/Q9-x"><img data-src="c6"></a></div>
</div>
<nav id="w0"><ul class="pagination"><li><a>1</a></li><li class="active"><a>2</a></li><li><a>3</a></li><li><a>next</a></li></ul></nav>
</body></html>"#;

#[test]
fn post_list_reads_posts_and_pages() {
    let list = post_list(LIST_PAGE).unwrap().unwrap();
    let got: Vec<(String, String, String, String)> = list
        .items
        .iter()
        .map(|p| (p.id.clone(), p.title.clone(), p.cover.clone(), p.href.clone()))
        .collect();
    assert_eq!(
        got,
        vec![
            (
                "abc123".to_string(),
                "Title One".to_string(),
                "http://img/1.jpg".to_string(),
                "/zh-hans/v/abc123".to_string()
            ),
        ]
    );
    assert_eq!(list.current, 2);
    assert_eq!(list.last, 3);
}

#[test]
fn post_list_without_videos_is_none() {
    assert!(post_list("<html><body><div id='other'></div></body></html>").unwrap().is_none());
}

#[test]
fn post_list_page_numbers_default_to_one() {
    let html = r#"<div id="videos"><div></div></div>"#;
    let list = post_list(html).unwrap().unwrap();
    assert_eq!(list.items.len(), 0);
    assert_eq!(list.current, 1);
    assert_eq!(list.last, 1);
    assert_eq!(page_number("17"), 17);
    assert_eq!(page_number(" 17"), 1);
    assert_eq!(page_number("»"), 1);
}

#[test]
fn post_from_link_needs_title_and_id() {
    let p = post_from_link("/v/ab9".to_string(), "c".to_string(), "t".to_string()).unwrap();
    assert_eq!((p.id.as_str(), p.title.as_str(), p.cover.as_str(), p.href.as_str()), ("ab9", "t", "c", "/v/ab9"));
    assert!(post_from_link("/v/ab9".to_string(), "c".to_string(), String::new()).is_none());
    assert!(post_from_link("/w/ab9".to_string(), "c".to_string(), "t".to_string()).is_none());
    assert!(post_from_capture(None, "h".to_string(), "c".to_string(), "t".to_string()).is_none());
    let q = post_from_capture(Some("id".to_string()), "h".to_string(), "c".to_string(), "t".to_string()).unwrap();
    assert_eq!(q.id, "id");
}

const POST_PAGE: &str = r#"<html><head><meta name="description" content="Desc here"></head><body>
<div class="wrapper"><div class="content-wrapper"><div><div><h1><a>  My Title
</a></h1></div></div></div></div>
<div class="container-fluid"><div class="d-none"><a href="/tag/a">TagA</a><a href="/tag/b"></a><a>NoHref</a><a href="/tag/c">TagC</a></div>
<div class="fullwidth"><script>var x = 1;</script><script>eval(function(p){return p}('abc'))</script></div></div>
</body></html>"#;

#[test]
fn read_post_page_gives_draft_and_expression() {
    match read_post_page(POST_PAGE).unwrap() {
        Ok(PostStep::Evaluate { draft, expression }) => {
            assert_eq!(draft.title, "My Title");
            assert_eq!(draft.keywords, "TagA,TagC");
            assert_eq!(draft.description, "Desc here");
            let tags: Vec<(String, String)> =
                draft.tags.iter().map(|t| (t.name.clone(), t.href.clone())).collect();
            assert_eq!(
                tags,
                vec![
                    ("TagA".to_string(), "/tag/a".to_string()),
                    ("TagC".to_string(), "/tag/c".to_string())
                ]
            );
            assert_eq!(expression, "(function(p){return p}('abc'))");
            let post = finish_post(draft, "jwplayer().setup({src:'https://v.example/1.mp4',type:'mp4'})").unwrap();
            assert_eq!(post.source, "https://v.example/1.mp4");
            assert_eq!(post.title, "My Title");
            assert_eq!(post.keywords, "TagA,TagC");
        }
        _ => panic!("expected a post to evaluate"),
    }
}

#[test]
fn read_post_page_without_player_is_missing() {
    let html = r#"<div class="container-fluid"><div class="d-none"><a href="/t">T</a></div></div>"#;
    assert!(matches!(read_post_page(html).unwrap(), Ok(PostStep::Missing)));
}

#[test]
fn read_post_page_without_eval_fails() {
    let html = r#"<div class="container-fluid"><div class="fullwidth"><script>var a = 1;</script></div></div>"#;
    match read_post_page(html).unwrap() {
        Err(e) => {
            assert!(matches!(e, PostError::ScriptCaptureFailed));
            assert_eq!(e.message(), "Captures (full script -> confuse script) failed.");
        }
        _ => panic!("expected an error"),
    }
}

#[test]
fn finish_post_without_source_fails() {
    let html = r#"<div class="container-fluid"><div class="fullwidth"><script>eval(x)</script></div></div>"#;
    match read_post_page(html).unwrap() {
        Ok(PostStep::Evaluate { draft, expression }) => {
            assert_eq!(expression, "(x)");
            assert_eq!(draft.title, "");
            assert_eq!(draft.keywords, "");
            assert_eq!(draft.description, "");
            match finish_post(draft, "no address here") {
                Err(e) => assert_eq!(e.message(), "Captures (actual script -> source) failed."),
                Ok(_) => panic!("expected an error"),
            }
        }
        _ => panic!("expected a post to evaluate"),
    }
}

#[test]
fn urls_of_the_site() {
    assert_eq!(post_list_url(119, 2), "https://www.pornlulu.com/zh-hans/cat/119?page=2");
    assert_eq!(post_url("nww8o"), "https://www.pornlulu.com/zh-hans/v/nww8o");
}

#[test]
fn answers_of_the_routes() {
    let items = category_list(CATEGORY_PAGE).unwrap();
    let entries = category_entries(items);
    assert_eq!(entries.len(), 5);
    assert_eq!((entries[0].id, entries[0].title.as_str()), (119, "Amateur"));

    let list = post_list(LIST_PAGE).unwrap();
    let page = post_list_page(list);
    assert!(page.has_more);
    assert_eq!(page.data.len(), 1);
    assert_eq!(page.data[0].thumbnail, "http://img/1.jpg");

    let none = post_list_page(None);
    assert!(!none.has_more);
    assert!(none.data.is_empty());

    let html = r#"<div id="videos"><div></div></div><nav id="w0"><ul class="pagination"><li class="active"><a>4</a></li><li><a>4</a></li><li><a>x</a></li></ul></nav>"#;
    let same = post_list_page(post_list(html).unwrap());
    assert!(!same.has_more);
}

#[test]
fn post_details_wraps_source_in_json() {
    let html = r#"<div class="container-fluid"><div class="fullwidth"><script>eval(x)</script></div></div>"#;
    let draft = match read_post_page(html).unwrap() {
        Ok(PostStep::Evaluate { draft, .. }) => draft,
        _ => panic!("expected a draft"),
    };
    let post = finish_post(draft, "src:'http://a/\"b\".mp4'").unwrap();
    let details = post_details(Some(post)).unwrap();
    assert_eq!(details.content, r#"{"source":"http://a/\"b\".mp4"}"#);
    assert!(post_details(None).is_none());
}

#[test]
fn post_details_escapes_control_characters() {
    let html = r#"<div class="container-fluid"><div class="fullwidth"><script>eval(x)</script></div></div>"#;
    let draft = match read_post_page(html).unwrap() {
        Ok(PostStep::Evaluate { draft, .. }) => draft,
        _ => panic!("expected a draft"),
    };
    let post = finish_post(draft, "src:'a\u{1}\t\\b\u{1f}é/'").unwrap();
    let details = post_details(Some(post)).unwrap();
    assert_eq!(details.content, "{\"source\":\"a\\u0001\\t\\\\b\\u001fé/\"}");
}
