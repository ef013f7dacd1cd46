use paradise_proxy::baihua::catcher::{
    base_posts, categories, content_lines, end_address, is_secret, last_page,
    page_count_from_digits, partition_lines, post, CatcherError,
};
use paradise_proxy::baihua::routes::{
    archive_page_url, archive_url, category_path, last_page_answer, thread_path, thread_url,
    DEFAULT_PAGE,
};

#[test]
fn categories_of_the_index() {
    let html = r#"<div id="content"><p>intro</p><ul><li><a href="fid-1.html">Cat1</a></li><li>No link</li><li><a>Bare</a></li></ul></div>"#;
    let got: Vec<(String, String)> =
        categories(html).unwrap().into_iter().map(|c| (c.name, c.link)).collect();
    assert_eq!(
        got,
        vec![
            ("Cat1".to_string(), "fid-1.html".to_string()),
            ("".to_string(), "".to_string()),
            ("Bare".to_string(), "".to_string()),
        ]
    );
}

#[test]
fn end_address_resolves_against_the_archive() {
    let html = r#"<div id="end"><a href="archiver/fid-2.html?page=5">end</a></div>"#;
    match end_address(html).unwrap() {
        Ok(u) => assert_eq!(u, "http://bhc339.top/archiver/fid-2.html?page=5"),
        Err(e) => panic!("unexpected {:?}", e),
    }
    let absolute = r#"<div id="end"><a href="/archiver/fid-3.html?page=2">end</a></div>"#;
    assert_eq!(end_address(absolute).unwrap().unwrap(), "http://bhc339.top/archiver/fid-3.html?page=2");
}

#[test]
fn end_address_errors() {
    match end_address("<p>no end</p>").unwrap() {
        Err(e) => {
            assert!(matches!(e, CatcherError::MissingEndLink));
            assert_eq!(e.message(), "???????????????");
        }
        Ok(_) => panic!("expected an error"),
    }
    match end_address(r#"<div id="end"><a href="http://[bad">end</a></div>"#).unwrap() {
        Err(e) => {
            assert!(matches!(e, CatcherError::BadEndLink));
            assert_eq!(e.message(), "?????????????????????????????????");
        }
        Ok(_) => panic!("expected an error"),
    }
}

#[test]
fn last_page_reads_digits() {
    let html = r#"<div id="fd_page_bottom"><div><a href="x">1</a><a class="last" href="y">... 12</a></div></div>"#;
    assert_eq!(last_page(html), Some(12));
    assert_eq!(last_page("<p>none</p>"), Some(1));
    let huge = r#"<div id="fd_page_bottom"><div><a class="last">99999999999999999999999</a></div></div>"#;
    assert_eq!(last_page(huge), Some(1));
    assert_eq!(page_count_from_digits(Some("7".to_string())), 7);
    assert_eq!(page_count_from_digits(None), 1);
}

#[test]
fn base_posts_read_links() {
    let html = r#"<div id="content"><ul><li><a href="thread-1-1-1.html">P1</a></li><li><a href="t2">P<b>2</b></a></li></ul></div>"#;
    let got: Vec<(String, String)> =
        base_posts(html).unwrap().into_iter().map(|p| (p.path, p.title)).collect();
    assert_eq!(
        got,
        vec![
            ("thread-1-1-1.html".to_string(), "P1".to_string()),
            ("t2".to_string(), "P2".to_string()),
        ]
    );
}

#[test]
fn base_posts_without_address_is_refused() {
    let html = r#"<div id="content"><ul><li><a href="a">A</a></li><li><a>no address</a></li></ul></div>"#;
    assert!(base_posts(html).is_none());
}

const POST_PAGE: &str = r#"<html><body>
<h1 id="thread_subject">Subject</h1>
<div class="t_f">Line one
  QQ: 12345
<div class="showhide">secret hidden</div><ignore_js_op>attachment</ignore_js_op>
  wechat wx id
  last line
<img class="zoom" file="img1.jpg"><img class="zoom"></div>
<div class="t_f">Comment 1</div>
<div class="t_f">Comment <b>2</b></div>
</body></html>"#;

#[test]
fn post_reads_main_post_and_comments() {
    let p = post(POST_PAGE).unwrap().unwrap();
    assert_eq!(p.title, "Subject");
    assert_eq!(p.images, vec!["img1.jpg".to_string()]);
    assert_eq!(p.hidden, "secret hidden");
    assert_eq!(p.content, vec!["Line one".to_string(), "last line".to_string()]);
    assert_eq!(p.secret_content, vec!["QQ: 12345".to_string(), "wechat wx id".to_string()]);
    let comments: Vec<String> = p.comments.into_iter().map(|c| c.comment).collect();
    assert_eq!(comments, vec!["Comment 1".to_string(), "Comment 2".to_string()]);
    assert!(p.post.starts_with("<div class=\"t_f\">"));
    assert!(!p.post.contains("showhide"));
    assert!(!p.post.contains("ignore_js_op"));
    assert!(p.post.contains("img1.jpg"));
}

#[test]
fn post_prefers_the_gallery() {
    let html = r#"<div class="pattl"><img class="zoom" file="g1.jpg"><img class="zoom" file="g2.jpg"></div><div class="t_f">text<img class="zoom" file="inline.jpg"></div>"#;
    let p = post(html).unwrap().unwrap();
    assert_eq!(p.images, vec!["g1.jpg".to_string(), "g2.jpg".to_string()]);
    assert_eq!(p.content, vec!["text".to_string()]);
    assert!(p.comments.is_empty());
}

#[test]
fn post_without_posts_is_an_error() {
    match post("<h1 id=\"thread_subject\">Alone</h1>").unwrap() {
        Err(e) => {
            assert!(matches!(e, CatcherError::MissingMainPost));
            assert_eq!(e.message(), "?????????????????????");
        }
        Ok(_) => panic!("expected an error"),
    }
}

#[test]
fn secret_lines_name_contacts() {
    for s in ["QQ 1", "my qq", "Qq", "qQ", "wx: a", "WX", "Wx", "wX", "tel 1", "Tel", "TEL", "??????"] {
        assert!(is_secret(s), "{}", s);
    }
    for s in ["hello", "Q Q", "t e l", "?????"] {
        assert!(!is_secret(s), "{}", s);
    }
}

#[test]
fn lines_are_trimmed_and_partitioned() {
    let lines = content_lines("  a \n\n\t b tel\n \u{3000} \nQQ c\nd");
    assert_eq!(lines, vec!["a", "b tel", "QQ c", "d"]);
    let total = lines.len();
    let (secret, public) = partition_lines(lines);
    assert_eq!(secret, vec!["b tel", "QQ c"]);
    assert_eq!(public, vec!["a", "d"]);
    assert_eq!(secret.len() + public.len(), total);
}

#[test]
fn forum_addresses() {
    assert_eq!(category_path(2), "fid-2.html");
    assert_eq!(thread_path(345), "thread-345-1-1.html");
    assert_eq!(archive_url("fid-2.html"), "http://bhc339.top/archiver/fid-2.html");
    assert_eq!(archive_page_url("fid-2.html", DEFAULT_PAGE), "http://bhc339.top/archiver/fid-2.html?page=1");
    assert_eq!(thread_url("thread-345-1-1.html"), "http://bhc339.top/thread-345-1-1.html");
    assert_eq!(last_page_answer(12), "12");
}
