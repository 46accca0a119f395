//! The note feed: rendering, snapshots, searches and the answers from memory.
use std::sync::Arc;

use serde_json::Value;
use web_static::cache::{
    check_feed, id_of_digest, is_buildable, places_of, search_outcome, snapshot_of, sort_notes,
    Cache, LLM_GUIDE,
};
use web_static::html::{
    escape, link_or_text, linked_text, original_link, original_link_for, quotes_html, quotes_md,
    social,
};
use web_static::http::{Body, Method, Response};
use web_static::json::Json;
use web_static::note::{
    article_body, blog_link, content_of, display_date, is_numeric_date, is_valid_video,
    render_dated, render_item, render_markdown, show_events, try_render_item, x_link,
};
use web_static::query::{page_params, pairs_of, parse_llm_query, SearchQuery};
use web_static::store::{empty_store, refresh, respond, response, try_refresh, Store};
use web_static::trusted::{MarkdownEvent, RegexRefusal, UrlParts};

const TEMPLATE: &str = "__FEED_PAGES__ __FEED_SNAPSHOT__ __FEED_ITEMS__";

fn of_value(value: &Value) -> Json {
    match value {
        Value::Null => Json::Null,
        Value::Bool(b) => Json::Bool(*b),
        Value::Number(n) => Json::Number(n.to_string()),
        Value::String(s) => Json::Text(s.clone()),
        Value::Array(items) => Json::List(items.iter().map(of_value).collect()),
        Value::Object(members) => Json::Object(
            members
                .iter()
                .map(|(key, value)| (key.clone(), of_value(value)))
                .collect(),
        ),
    }
}

fn value(text: &str) -> Value {
    serde_json::from_str(text).unwrap()
}

fn json(text: &str) -> Json {
    of_value(&value(text))
}

fn data(n: usize) -> Value {
    let items: Vec<String> = (0..n)
        .map(|i| {
            format!(
                r#"{{"id":"{i}","text":"note {i} [卡皮巴拉]","source":"微博","publishedAt":"2026-09-12T00:00:00Z","quotes":[]}}"#
            )
        })
        .collect();
    value(&format!(
        r#"{{"snapshotId":"aaaaaaaaaaaaaaaa","total":{n},"items":[{}]}}"#,
        items.join(",")
    ))
}

fn build(data: &Value) -> Result<Cache, String> {
    Cache::build(&of_value(data), TEMPLATE, &json("{}"))
}

fn built(data: &Value) -> Cache {
    build(data).ok().unwrap()
}

fn rendered(item: &str, emojis: &str) -> (String, String) {
    render_item(&json(item), &json(emojis)).unwrap()
}

fn query(text: &str) -> SearchQuery {
    SearchQuery::parse(Some(text)).ok().unwrap()
}

fn query_error(text: &str) -> &'static str {
    SearchQuery::parse(Some(text)).err().unwrap()
}

fn body_of(response: &Response) -> String {
    match &response.body {
        Body::Empty => String::new(),
        Body::Text(text) => text.clone(),
        Body::Upstream => panic!("no upstream here"),
    }
}

fn header_of(response: &Response, name: &str) -> Option<String> {
    response
        .header(name)
        .map(|value| String::from_utf8(value.clone()).unwrap())
}

#[test]
fn search_covers_all_notes_titles_and_quotes_and_treats_keywords_literally() {
    let mut payload = data(43);
    payload["items"][42]["text"] = Value::from("Rust [a+b] 过去的一句话");
    payload["items"][41]["title"] = Value::from("SpecialTitle");
    payload["items"][40]["quotes"] = value(r#"[{"text":"引用中的独特观点"}]"#);
    let cache = built(&payload);
    for (text, id) in [
        ("q=rust", 42),
        ("q=%5Ba%2Bb%5D", 42),
        ("q=specialtitle", 41),
        ("q=独特观点", 40),
    ] {
        let q = query(text);
        assert_eq!(cache.search(&q).unwrap(), vec![id]);
    }
    let q = query("q=Rust%7C独特观点&regex=1");
    assert_eq!(cache.search(&q).unwrap(), vec![40, 42]);
    assert!(cache.search(&query("q=never-matches")).unwrap().is_empty());
    assert!(cache.search(&query("q=%5B&regex=1")).is_err());
    assert!(SearchQuery::parse(Some("q=x&regex=2")).is_err());
    assert!(SearchQuery::parse(Some("q=x&offset=-1")).is_err());
    assert!(SearchQuery::parse(Some("q=x&limit=0")).is_err());
    assert!(SearchQuery::parse(Some("q=x&limit=101")).is_err());
    assert!(SearchQuery::parse(Some(&format!("q={}", "x".repeat(2049)))).is_err());
}

#[test]
fn search_paginates_results_and_preserves_query_and_snapshot_in_markdown() {
    let cache = built(&data(43));
    let q = query("q=note&limit=20&offset=20");
    let page = value(&cache.search_body(&q, false).unwrap());
    assert_eq!(page["total"], 43);
    assert_eq!(page["nextOffset"], 40);
    assert_eq!(
        page["html"].as_str().unwrap().matches("<article ").count(),
        20
    );
    assert!(!page["html"].as_str().unwrap().contains("id=\"0\""));
    let md = cache.search_body(&q, true).unwrap();
    assert!(md.contains(&format!(
        "q=note&regex=0&offset=40&limit=20&snapshot={}",
        cache.snapshot
    )));
    let last = query("q=note&offset=40");
    let page = value(&cache.search_body(&last, false).unwrap());
    assert_eq!(page["nextOffset"], Value::Null);
    assert_eq!(
        page["html"].as_str().unwrap().matches("<article ").count(),
        3
    );
    let empty = query("q=note&offset=18446744073709551615");
    assert!(cache.search_body(&empty, true).unwrap().contains("已到最后"));
}

#[test]
fn search_routes_support_head_errors_and_previous_snapshot_without_storage() {
    let previous = Arc::new(built(&data(2)));
    let current = Arc::new(built(&data(43)));
    let store = Store {
        current: Some(current),
        previous: Some(previous.clone()),
    };
    let answer = response(
        &store,
        Method::Get,
        "/feed/search.json",
        Some(&format!("q=note&snapshot={}", previous.snapshot)),
    );
    assert_eq!(answer.status, 200);
    assert_eq!(value(&body_of(&answer))["total"], 2);
    let head = response(&store, Method::Head, "/llms.txt", Some("q=note"));
    assert_eq!(head.status, 200);
    assert!(body_of(&head).is_empty());
    assert_eq!(
        response(
            &store,
            Method::Get,
            "/feed/search.json",
            Some("q=x&snapshot=expired")
        )
        .status,
        409
    );
    assert_eq!(
        response(
            &store,
            Method::Get,
            "/feed/search.json",
            Some("q=%5B&regex=1")
        )
        .status,
        400
    );
}

#[test]
fn full_first_last_and_empty() {
    let cache = built(&data(43));
    assert_eq!(cache.html.matches("<article ").count(), 20);
    assert_eq!(cache.pages.len(), 3);
    let last = value(&cache.pages[2]);
    assert_eq!(last["offset"], 40);
    assert_eq!(
        last["html"].as_str().unwrap().matches("<article ").count(),
        3
    );
    assert_eq!(cache.markdown.matches("## ").count(), 20);
    assert_eq!(cache.sections.len(), 43);
    assert!(cache
        .markdown
        .contains("[下一页](https://zexi.me/llms.txt?offset=20&limit=20)"));
    assert!(cache.markdown(20, 20).contains("offset=40&limit=20"));
    assert!(!cache.markdown(40, 20).contains("下一页"));
    assert!(cache.markdown(usize::MAX, 100).contains("已到最后"));
    assert!(built(&data(0)).pages.is_empty());
}

#[test]
fn rendering_is_safe_and_preserves_quotes_images_and_emoji() {
    let (html, md) = rendered(
        r#"{"id":"<test>","text":"<script>alert(1)</script>[卡皮巴拉]","source":"微博","publishedAt":"2026-09-11T23:00:00Z","quotes":[{"source":"微博","text":"自己的前文","quotes":[{"text":"更早的前文"}]}],"images":["/content-assets/social/a.jpg","javascript:bad"]}"#,
        r#"{"卡皮巴拉":"https://face.t.sinajs.cn/a.png"}"#,
    );
    assert!(!html.contains("<script>"));
    assert!(html.contains("weibo-emoji"));
    assert!(html.contains("2026/9/12"));
    assert_eq!(html.matches("<blockquote").count(), 2);
    assert!(html.contains("feed-image"));
    assert!(!html.contains("javascript:"));
    assert!(md.contains("> > 更早的前文"));
    let (html, _) = rendered(
        r##"{"id":"GitHub blog:test","source":"GitHub blog","text":"# Heading\n\n**bold**\n\n[x](javascript:alert(1))\n\n<img src=x onerror=alert(1)>","publishedAt":"2026-09-12T00:00:00Z"}"##,
        "{}",
    );
    assert!(html.contains("<strong>bold</strong>"));
    assert!(!html.contains("href=\"javascript:"));
    assert!(!html.contains("<img src=x"));
}

#[test]
fn video_player_is_outside_collapsed_text_and_rejects_untrusted_paths() {
    let path = format!("/content-assets/social/{}.mp4", "a".repeat(64));
    let (html, _) = rendered(
        &format!(
            r#"{{"id":"video", "source":"微博", "text":"正文", "publishedAt":"2026-09-13T00:00:00Z", "hasVideo":true, "url":"https://weibo.com/1/2", "videos":["{path}", "javascript:bad", "/content-assets/social/../../evil.mp4"]}}"#
        ),
        "{}",
    );
    assert_eq!(html.matches("<video ").count(), 1);
    assert!(html.contains("controls playsinline preload=\"metadata\""));
    assert!(html.find("<video ").unwrap() > html.find("</button>").unwrap());
    assert!(!html.contains("查看视频附件"));
    assert!(!html.contains("javascript:bad"));
    assert!(!html.contains("evil.mp4"));
    let (html, _) = rendered(
        r#"{"id":"missing", "source":"微博", "text":"正文", "publishedAt":"2026-09-13T00:00:00Z", "hasVideo":true, "url":"https://weibo.com/1/2"}"#,
        "{}",
    );
    assert!(html.contains("查看视频附件"));
}

#[test]
fn quote_sources_are_clickable_and_escaped() {
    let html = quotes_html(
        &json(
            r#"[{"source":"微博", "text":"来源：http://t.cn/AXc2V3Yt。<script>bad</script>", "url":"https://weibo.com/1727858283/Qt9rruBev"}]"#,
        ),
        &json("{}"),
        0,
    );
    assert!(html.contains("href=\"http://t.cn/AXc2V3Yt\""));
    assert!(html.contains("href=\"https://weibo.com/1727858283/Qt9rruBev\""));
    assert!(html.contains(">原文</a>"));
    assert!(!html.contains("<script>"));
    assert!(original_link("javascript:alert(1)").is_empty());
}

#[test]
fn malformed_data_and_template_rejected() {
    let mut d = data(1);
    d["total"] = Value::from(2);
    assert!(build(&d).is_err());
    assert!(Cache::build(&of_value(&data(1)), "bad template", &json("{}")).is_err());
}

#[test]
fn requests_use_memory_refresh_is_atomic_and_old_pages_survive() {
    let mut payload = data(43);
    let mut store = empty_store();
    assert_eq!(response(&store, Method::Get, "/", None).status, 503);
    refresh(&mut store, &of_value(&payload), TEMPLATE, &json("{}")).unwrap();
    let old = store.current.as_ref().unwrap().snapshot.clone();
    for path in [
        "/",
        "/llms.txt",
        &format!("/feed/runtime/{old}/page-3.json"),
    ] {
        assert_eq!(response(&store, Method::Get, path, None).status, 200);
    }
    payload["items"][0]["text"] = Value::from("new version");
    refresh(&mut store, &of_value(&payload), TEMPLATE, &json("{}")).unwrap();
    assert_ne!(store.current.as_ref().unwrap().snapshot, old);
    assert_eq!(
        response(
            &store,
            Method::Get,
            &format!("/feed/runtime/{old}/page-3.json"),
            None
        )
        .status,
        200
    );
    payload["total"] = Value::from(999);
    assert!(refresh(&mut store, &of_value(&payload), TEMPLATE, &json("{}")).is_err());
    assert!(store
        .current
        .as_ref()
        .unwrap()
        .markdown
        .contains("new version"));
    assert_eq!(
        response(&store, Method::Get, "/llms.txt", Some("limit=0")).status,
        400
    );
    assert_eq!(response(&store, Method::Get, "/", None).status, 200);
}

#[test]
fn escaping_writes_five_entities() {
    assert_eq!(
        escape("a&b<c>d\"e'f&amp;中"),
        "a&amp;b&lt;c&gt;d&quot;e&#39;f&amp;amp;中"
    );
}

#[test]
fn addresses_become_links() {
    assert_eq!(
        linked_text("见 https://a.me/x?y=1&z=2。完<b>"),
        "见 <a href=\"https://a.me/x?y=1&amp;z=2\" target=\"_blank\" rel=\"noopener\">https://a.me/x?y=1&amp;z=2</a>。完&lt;b&gt;"
    );
    assert_eq!(
        linked_text("(http://a.me/b.c).)"),
        "(<a href=\"http://a.me/b.c\" target=\"_blank\" rel=\"noopener\">http://a.me/b.c</a>).)"
    );
    assert_eq!(linked_text("http:// x"), "http:// x");
    assert_eq!(linked_text("https://[x] 'q'"), "https://[x] &#39;q&#39;");
    assert_eq!(
        link_or_text(&['a', '<'], true),
        "<a href=\"a&lt;\" target=\"_blank\" rel=\"noopener\">a&lt;</a>"
    );
    assert_eq!(link_or_text(&['a', '<'], false), "a&lt;");
}

#[test]
fn originals_are_web_addresses() {
    assert_eq!(
        original_link("http://a.me/?\"x\""),
        "<a class=\"feed-original\" href=\"http://a.me/?&quot;x&quot;\" target=\"_blank\" rel=\"noopener\">原文</a>"
    );
    assert_eq!(original_link("a.me"), "");
    assert_eq!(original_link("ftp://a.me"), "");
    assert_eq!(original_link_for("x", Some("data")), "");
    assert_eq!(original_link_for("x", None), "");
    assert_eq!(
        original_link_for("x", Some("https")),
        "<a class=\"feed-original\" href=\"x\" target=\"_blank\" rel=\"noopener\">原文</a>"
    );
}

#[test]
fn emoji_come_from_one_host_and_one_source() {
    let table = json(r#"{"a":"https://face.t.sinajs.cn/a.png?x=1&y","b":"https://evil.me/b.png","c":1}"#);
    assert_eq!(
        social("[a]!", "微博", &table),
        "<img class=\"weibo-emoji\" src=\"https://face.t.sinajs.cn/a.png?x=1&amp;y\" alt=\"[a]\" title=\"[a]\" width=\"20\" height=\"20\" loading=\"lazy\" referrerpolicy=\"no-referrer\">!"
    );
    assert_eq!(social("[a]", "X", &table), "[a]");
    assert_eq!(social("[b][c][d] [x", "微博", &table), "[b][c][d] [x");
    assert!(social("[[a]", "微博", &table).starts_with("[<img "));
}

#[test]
fn quotes_are_nested_and_partly_left_out() {
    let quotes = json(
        r#"[{"text":"一","partial":true},{"text":"二","unavailable":true},{"text":"三\r\n四","quotes":[{"text":" 五 "}]}]"#,
    );
    assert_eq!(
        quotes_html(&quotes, &json("{}"), 0),
        "<blockquote class=\"feed-quote\"><p>一</p><small>归档引用片段，可能不完整</small></blockquote><blockquote class=\"feed-quote\"><p>三\r\n四</p><blockquote class=\"feed-quote\"><p> 五 </p></blockquote></blockquote>"
    );
    assert_eq!(quotes_md(&quotes, 0), "> 一\n\n> 三\n> 四\n> \n> > 五\n\n");
    assert_eq!(quotes_html(&quotes, &json("{}"), 33), "");
    assert_eq!(quotes_md(&quotes, 33), "");
    assert_eq!(quotes_md(&json("null"), 0), "");
    assert!(quotes_html(&quotes, &json("{}"), 32).contains("三"));
    assert!(!quotes_html(&quotes, &json("{}"), 32).contains("五"));
}

#[test]
fn dates_are_those_of_shanghai_and_lose_their_zeros() {
    assert_eq!(display_date("2026-09-02"), "2026/9/2");
    assert_eq!(display_date("+10000-01-01"), "10000/1/1");
    assert!(is_numeric_date("2026-09-02"));
    assert!(!is_numeric_date("-0001-09-02"));
    let (html, md) = rendered(
        r#"{"id":"a","text":"x","publishedAt":"2026-01-01T16:30:00Z"}"#,
        "{}",
    );
    assert!(html.contains("<time datetime=\"2026-01-01T16:30:00Z\">2026/1/2</time>"));
    assert_eq!(md, "## 2026-01-02\n\nx\n\n\n---\n\n");
    for time in ["", "yesterday", "2026-01-01"] {
        let item = json(&format!(r#"{{"id":"a","text":"x","publishedAt":"{time}"}}"#));
        assert_eq!(
            render_item(&item, &json("{}")),
            Err("Invalid publication date".to_owned())
        );
        assert_eq!(
            try_render_item(&item, &json("{}")),
            Some(Err("Invalid publication date".to_owned()))
        );
    }
    let early = json(r#"{"id":"a","text":"x","publishedAt":"0000-01-01T00:00:00+23:59"}"#);
    assert!(try_render_item(&early, &json("{}")).is_none());
}

#[test]
fn a_note_is_rendered_with_a_given_date() {
    let item = json(
        r#"{"id":"n&1","text":"正文","source":"微博","publishedAt":"t","images":["/content-assets/social/a&b.jpg",7],"origins":[{"source":"X","url":"https://x.com/a"},{"source":"GitHub blog"}]}"#,
    );
    let (html, md) = render_dated(&item, &json("{}"), "2026-10-03");
    assert_eq!(
        html,
        "<article class=\"feed-item\" id=\"n&amp;1\"><div class=\"feed-item__meta\"><a class=\"feed-origin\" href=\"https://x.com/a\" target=\"_blank\" rel=\"noopener\">X</a><time datetime=\"t\">2026/10/3</time></div><div id=\"body-n&amp;1\" class=\"feed-body\" data-collapsed=\"true\"><p>正文</p></div><button class=\"feed-expand\" type=\"button\" aria-expanded=\"false\" aria-controls=\"body-n&amp;1\" hidden>展开</button><div class=\"feed-images\"><a href=\"/content-assets/social/a&amp;b.jpg\" class=\"feed-image\" aria-label=\"放大第 1 张配图\"><img src=\"/content-assets/social/a&amp;b.jpg\" alt=\"配图 1\" loading=\"lazy\" width=\"160\" height=\"160\" /></a></div></article>"
    );
    assert_eq!(
        md,
        "## 2026-10-03\n\n正文\n\n![配图](https://zexi.me/content-assets/social/a&amp;b.jpg)\n\n\n---\n\n"
    );
}

#[test]
fn articles_have_titles_labels_and_assets() {
    let item = r#"{"id":"GitHub blog:a b","source":"GitHub blog","title":"T<","text":"![p](assets/p.png) [q](assets/q) <b>","publishedAt":"2026-09-12T00:00:00Z"}"#;
    let (html, md) = rendered(item, "{}");
    assert!(html.contains("<h3>T&lt;</h3>"));
    assert!(html.contains("class=\"feed-body markdown-section\""));
    assert!(html.contains("<a href=\"https://github.com/wangzexi/blog/blob/main/a%20b/README.md\" target=\"_blank\" rel=\"noopener\">GitHub</a>"));
    assert!(html.contains("src=\"/content-assets/a b/p.png\""));
    assert!(html.contains("href=\"/content-assets/a b/q\""));
    assert!(html.contains("&lt;b&gt;"));
    assert!(md.starts_with("## T<\n\n2026-09-12\n\n"));
    assert_eq!(
        article_body("<img src=\"assets/x\"><a href=\"assets/y\">src=assets/</a>", "GitHub blog:&"),
        "<img src=\"/content-assets/&amp;/x\"><a href=\"/content-assets/&amp;/y\">src=assets/</a>"
    );
    assert_eq!(
        blog_link("GitHub blog:GitHub blog:x/y"),
        "<a href=\"https://github.com/wangzexi/blog/blob/main/x%2Fy/README.md\" target=\"_blank\" rel=\"noopener\">GitHub</a>"
    );
}

#[test]
fn notes_on_x_are_linked_to_that_site_alone() {
    let parts = |scheme: &str, host: Option<&str>| UrlParts {
        scheme: scheme.to_owned(),
        host: host.map(|h| h.to_owned()),
        text: "https://x.com/?a&b".to_owned(),
    };
    let link = "<a class=\"feed-origin\" href=\"https://x.com/?a&amp;b\" target=\"_blank\" rel=\"noopener\">X</a>";
    assert_eq!(x_link(Some(&parts("https", Some("x.com")))), link);
    assert_eq!(x_link(Some(&parts("https", Some("www.x.com")))), link);
    assert_eq!(x_link(Some(&parts("http", Some("x.com")))), "");
    assert_eq!(x_link(Some(&parts("https", Some("y.x.com")))), "");
    assert_eq!(x_link(Some(&parts("https", None))), "");
    assert_eq!(x_link(None), "");
    let item = |url: &str| {
        rendered(
            &format!(r#"{{"id":"a","source":"X","text":"t","url":"{url}","publishedAt":"2026-09-12T00:00:00Z"}}"#),
            "{}",
        )
        .0
    };
    assert!(item("HTTPS://X.com/a").contains("href=\"https://x.com/a\""));
    assert!(!item("https://evil.me/x.com").contains("feed-origin"));
    assert!(!item("x.com").contains("feed-origin"));
}

#[test]
fn short_video_links_are_cut_off() {
    let cut = |s: &str, video: bool| {
        let chars: Vec<char> = s.chars().collect();
        content_of(&chars, video).iter().collect::<String>()
    };
    assert_eq!(cut("看 http://t.cn/abc", true), "看 ");
    assert_eq!(cut("看 https://t.cn/abc \u{200b}\n", true), "看 ");
    assert_eq!(cut("看 http://t.cn/abc", false), "看 http://t.cn/abc");
    assert_eq!(cut("看 http://t.cn/abc 完", true), "看 http://t.cn/abc 完");
    assert_eq!(cut("看 http://t.me/abc", true), "看 http://t.me/abc");
    assert_eq!(cut("看", true), "看");
}

#[test]
fn video_paths_hold_a_hash() {
    let path = |hash: &str| format!("/content-assets/social/{hash}.mp4");
    assert!(is_valid_video(&path(&"0f".repeat(32))));
    assert!(!is_valid_video(&path(&"0F".repeat(32))));
    assert!(!is_valid_video(&path(&"a".repeat(63))));
    assert!(!is_valid_video(&path(&"a".repeat(65))));
    assert!(!is_valid_video(&path(&"g".repeat(64))));
    assert!(!is_valid_video("/content-assets/social/.mp4"));
    assert!(!is_valid_video(&format!("/x/{}.mp4", "a".repeat(64))));
    assert!(!is_valid_video(&format!("/content-assets/social/{}", "a".repeat(64))));
}

#[test]
fn pages_and_searches_are_parsed() {
    assert_eq!(parse_llm_query(None), Ok((0, 20)));
    assert_eq!(parse_llm_query(Some("")), Ok((0, 20)));
    assert_eq!(parse_llm_query(Some("offset=40&limit=100")), Ok((40, 100)));
    assert_eq!(parse_llm_query(Some("limit=1&limit=2&x=y")), Ok((0, 2)));
    assert_eq!(
        parse_llm_query(Some("offset=x")),
        Err("offset must be a non-negative integer")
    );
    assert_eq!(
        parse_llm_query(Some("offset=")),
        Err("offset must be a non-negative integer")
    );
    for bad in ["limit=0", "limit=101", "limit=x", "limit=-1"] {
        assert_eq!(
            parse_llm_query(Some(bad)),
            Err("limit must be between 1 and 100")
        );
    }
    let search = query("q=+a%20b+&regex=1&offset=3&limit=4&snapshot=s");
    assert_eq!(search.q, "a b");
    assert!(search.regex);
    assert_eq!(search.offset, 3);
    assert_eq!(search.limit, 4);
    assert_eq!(search.snapshot.as_deref(), Some("s"));
    let search = SearchQuery::parse(None).ok().unwrap();
    assert_eq!(search.q, "");
    assert!(!search.regex);
    assert_eq!(search.limit, 20);
    assert!(search.snapshot.is_none());
    assert_eq!(query_error("q=x&regex=2"), "regex must be 0 or 1");
    assert_eq!(
        query_error(&format!("q={}", "中".repeat(683))),
        "搜索内容过长，请缩短后重试。"
    );
    assert_eq!(query(&format!("q={}", "x".repeat(2048))).q.len(), 2048);
    assert_eq!(query_error("q=x&offset=1.5"), "offset must be a non-negative integer");
    assert_eq!(query_error("q=x&limit=0"), "limit must be between 1 and 100");
}

#[test]
fn links_to_the_next_page_keep_the_search() {
    let search = query("q=a+%26+%E4%B8%AD%7C%5B%3D&regex=1&limit=7");
    let link = search.params(14, "0123456789abcdef");
    assert_eq!(
        link,
        "q=a+%26+%E4%B8%AD%7C%5B%3D&regex=1&offset=14&limit=7&snapshot=0123456789abcdef"
    );
    let again = query(&link);
    assert_eq!(again.q, search.q);
    assert_eq!(again.regex, search.regex);
    assert_eq!(again.offset, 14);
    assert_eq!(again.limit, search.limit);
    assert_eq!(again.snapshot.as_deref(), Some("0123456789abcdef"));
}

#[test]
fn json_is_written_like_serde_json_writes_it() {
    let text = r#"{"a":[1,-2.5,1e30,true,false,null],"b":{"c\"\\\n\u0001中":"x/\u001f<"},"":[],"d":{}}"#;
    let parsed = value(text);
    assert_eq!(of_value(&parsed).encode(), parsed.to_string());
    assert_eq!(json("18446744073709551615").as_number(), Some(u64::MAX));
    assert_eq!(json("18446744073709551616").as_number(), None);
    assert_eq!(json("-1").as_number(), None);
    assert_eq!(json("1.0").as_number(), None);
    assert_eq!(json("\"1\"").as_number(), None);
    let object = json(r#"{"a":"x","b":true,"c":[1]}"#);
    assert_eq!(object.text("a"), "x");
    assert_eq!(object.text("b"), "");
    assert_eq!(object.text("z"), "");
    assert!(object.flag("b"));
    assert!(!object.flag("a"));
    assert_eq!(object.list("c").map(|list| list.len()), Some(1));
    assert!(object.list("a").is_none());
    assert!(object.find("z").is_none());
    assert!(json("[]").find("a").is_none());
    assert_eq!(json("\"x\"").as_str(), Some("x"));
    assert_eq!(json("1").as_str(), None);
}

#[test]
fn snapshots_are_named_by_the_digest_of_their_notes() {
    let items = |text: &str| match json(text) {
        Json::List(items) => items,
        _ => panic!("no list"),
    };
    // The SHA-256 digest of "[]".
    assert_eq!(snapshot_of(&items("[]")), "4f53cda18c2baa0c");
    assert_eq!(id_of_digest(&[0, 1, 15, 16, 171, 205, 239, 255, 9]), "00010f10abcdefff");
    let (a, b) = (built(&data(2)), built(&data(3)));
    assert_ne!(a.snapshot, b.snapshot);
    assert_eq!(a.snapshot, built(&data(2)).snapshot);
}

#[test]
fn notes_are_sorted_by_time_and_otherwise_kept() {
    let items = match json(
        r#"[{"id":"a","publishedAt":"2026-01-01"},{"id":"b","publishedAt":"2026-01-03"},{"id":"c","publishedAt":"2026-01-01"},{"id":"d"},{"id":"e","publishedAt":"2026-01-03"}]"#,
    ) {
        Json::List(items) => items,
        _ => panic!("no list"),
    };
    let ids: Vec<&str> = sort_notes(&items).iter().map(|item| item.text("id")).collect();
    assert_eq!(ids, vec!["b", "e", "a", "c", "d"]);
}

#[test]
fn feeds_are_refused_with_a_reason() {
    let reason = |data: &str, template: &str| {
        check_feed(&json(data), template).err().unwrap_or_default()
    };
    let good = r#"{"items":[{"id":"a","text":""}],"total":1}"#;
    assert_eq!(reason(good, TEMPLATE), "");
    assert_eq!(
        reason(good, "__FEED_PAGES__"),
        "Missing template marker __FEED_ITEMS__"
    );
    assert_eq!(
        reason(good, "__FEED_ITEMS__"),
        "Missing template marker __FEED_PAGES__"
    );
    assert_eq!(
        reason(good, "__FEED_ITEMS__ __FEED_PAGES__"),
        "Missing template marker __FEED_SNAPSHOT__"
    );
    assert_eq!(reason(r#"{"total":0}"#, TEMPLATE), "Invalid items");
    assert_eq!(reason(r#"{"items":{},"total":0}"#, TEMPLATE), "Invalid items");
    assert_eq!(reason(r#"{"items":[]}"#, TEMPLATE), "Invalid total");
    assert_eq!(reason(r#"{"items":[],"total":"0"}"#, TEMPLATE), "Invalid total");
    for items in [
        r#"[{"id":"","text":"x"}]"#,
        r#"[{"text":"x"}]"#,
        r#"[{"id":"a"}]"#,
        r#"[{"id":"a","text":1}]"#,
    ] {
        assert_eq!(
            reason(&format!(r#"{{"items":{items},"total":1}}"#), TEMPLATE),
            "Invalid item"
        );
    }
    assert_eq!(
        reason(
            r#"{"items":[{"id":"a","text":""},{"id":"a","text":""}],"total":2}"#,
            TEMPLATE
        ),
        "Invalid item"
    );
    assert_eq!(
        build(&value(r#"{"items":[{"id":"a","text":"x","publishedAt":"never"}],"total":1}"#))
            .err()
            .as_deref(),
        Some("Invalid publication date")
    );
}

#[test]
fn feeds_whose_dates_cannot_be_shown_are_told_apart() {
    let early = json(
        r#"{"items":[{"id":"a","text":"x","publishedAt":"0000-01-01T00:00:00+23:59"}],"total":1}"#,
    );
    assert!(!is_buildable(&early, TEMPLATE));
    assert!(Cache::try_build(&early, TEMPLATE, &json("{}")).is_none());
    let mut store = empty_store();
    assert!(try_refresh(&mut store, &early, TEMPLATE, &json("{}")).is_none());
    assert!(store.current.is_none());
    let good = of_value(&data(1));
    assert!(is_buildable(&good, TEMPLATE));
    assert!(matches!(
        Cache::try_build(&good, TEMPLATE, &json("{}")),
        Some(Ok(_))
    ));
    assert_eq!(
        try_refresh(&mut store, &good, "bad", &json("{}")),
        Some(Err("Missing template marker __FEED_ITEMS__".to_owned()))
    );
    assert_eq!(
        try_refresh(&mut store, &good, TEMPLATE, &json("{}")),
        Some(Ok(()))
    );
    assert!(store.current.is_some());
}

#[test]
fn the_page_has_its_marks_replaced_and_notes_stay_literal() {
    let template = "<i id=\"feed-status\">__FEED_PAGES__/__FEED_SNAPSHOT__</i>__FEED_ITEMS__";
    let mut payload = data(21);
    payload["items"][0]["text"] = Value::from("__FEED_PAGES__ __FEED_SNAPSHOT__ __FEED_ITEMS__");
    let cache = Cache::build(&of_value(&payload), template, &json("{}")).ok().unwrap();
    assert!(cache
        .html
        .starts_with(&format!("<i id=\"feed-status\">2/{}</i><article ", cache.snapshot)));
    assert!(cache
        .html
        .contains("<p>__FEED_PAGES__ __FEED_SNAPSHOT__ __FEED_ITEMS__</p>"));
    assert!(cache.html.contains(&cache.item_html[..20].concat()));
    let cache = Cache::build(&of_value(&data(1)), template, &json("{}")).ok().unwrap();
    assert!(cache
        .html
        .starts_with("<i data-complete=\"true\" id=\"feed-status\">1/"));
    assert!(cache.html.contains(&cache.item_html[0]));
}

#[test]
fn pages_of_the_feed_are_json() {
    let cache = built(&data(21));
    assert_eq!(cache.pages.len(), 2);
    let page = value(&cache.pages[1]);
    assert_eq!(page["offset"], 20);
    assert_eq!(page["total"], 21);
    assert_eq!(page["snapshotId"], Value::from(cache.snapshot.clone()));
    assert_eq!(page["html"], Value::from(cache.item_html[20].clone()));
    assert_eq!(page.to_string(), cache.pages[1]);
}

#[test]
fn markdown_pages_follow_each_other_to_the_end() {
    let cache = built(&data(43));
    let mut offset = 0;
    let mut seen = String::new();
    loop {
        let page = cache.markdown(offset, 10);
        let body = page
            .strip_prefix(&format!("# Zexi's Notes\n\n{LLM_GUIDE}"))
            .unwrap();
        match body.find("[下一页]") {
            Some(end) => {
                seen.push_str(&body[..end]);
                offset += 10;
                assert_eq!(
                    &body[end..],
                    format!("[下一页](https://zexi.me/llms.txt?offset={offset}&limit=10)\n")
                );
            }
            None => {
                seen.push_str(body.strip_suffix("已到最后一页。\n").unwrap());
                break;
            }
        }
    }
    assert_eq!(seen, cache.sections.concat());
}

#[test]
fn searches_page_through_all_matches() {
    let cache = built(&data(43));
    let mut seen = String::new();
    let mut search = query("q=NOTE&limit=9");
    loop {
        let page = value(&cache.search_body(&search, false).unwrap());
        assert_eq!(page["query"], Value::from("NOTE"));
        assert_eq!(page["regex"], false);
        assert_eq!(page["limit"], 9);
        seen.push_str(page["html"].as_str().unwrap());
        match page["nextOffset"].as_u64() {
            Some(next) => search = query(&search.params(next as usize, &cache.snapshot)),
            None => break,
        }
    }
    assert_eq!(seen, cache.item_html.concat());
    let none = cache.search_body(&query("q=absent"), true).unwrap();
    assert_eq!(
        none,
        format!("# Zexi's Notes 搜索\n\n{LLM_GUIDE}共找到 0 条笔记。\n\n没有找到匹配的笔记。\n")
    );
}

#[test]
fn regular_expressions_ignore_case_and_are_limited() {
    let mut payload = data(3);
    payload["items"][1]["text"] = Value::from("贝叶斯 ABC");
    let cache = built(&payload);
    assert_eq!(cache.search(&query("q=贝叶斯%7C概率&regex=1")), Ok(vec![1]));
    assert_eq!(cache.search(&query("q=%5Eabc&regex=1")), Ok(vec![]));
    assert_eq!(cache.search(&query("q=a.c%24&regex=1")), Ok(vec![]));
    assert_eq!(cache.search(&query("q=a.c&regex=1")), Ok(vec![1]));
    assert_eq!(cache.search(&query("q=a.c")), Ok(vec![]));
    assert_eq!(cache.search(&query("q=")), Ok(vec![0, 1, 2]));
    let refused = Err("正则表达式无效或过于复杂，请修改后重试。");
    assert_eq!(cache.search(&query("q=(%3F%3Da)&regex=1")), refused);
    assert_eq!(cache.search(&query("q=(.{1000}){1000}&regex=1")), refused);
    assert_eq!(search_outcome(Err(RegexRefusal::Syntax)), refused);
    assert_eq!(search_outcome(Err(RegexRefusal::TooLarge)), refused);
    assert_eq!(search_outcome(Ok(vec![true, false, true])), Ok(vec![0, 2]));
    for pattern in ["(", "a{2,1}", "%5Cp%7BNone%7D", "(%3F%3C!a)", "%5C1", "*"] {
        assert_eq!(cache.search(&query(&format!("q={pattern}&regex=1"))), refused);
    }
    assert_eq!(places_of(&vec![false, true]), vec![1]);
}

#[test]
fn one_older_snapshot_is_kept() {
    let mut store = Store::default();
    store.install(built(&data(1)));
    let first = store.current.as_ref().unwrap().snapshot.clone();
    assert!(store.previous.is_none());
    store.install(built(&data(1)));
    assert!(store.previous.is_none());
    store.install(built(&data(2)));
    assert_eq!(store.previous.as_ref().unwrap().snapshot, first);
    store.install(built(&data(3)));
    let path = format!("/feed/runtime/{first}/page-1.json");
    let answer = response(&store, Method::Get, &path, None);
    assert_eq!(answer.status, 409);
    assert_eq!(body_of(&answer), "feed updated; reload\n");
}

#[test]
fn answers_have_types_and_bodies() {
    let mut store = empty_store();
    store.install(built(&data(43)));
    let cache = store.current.as_ref().unwrap().clone();
    let home = response(&store, Method::Get, "/index.html", None);
    assert_eq!(body_of(&home), cache.html);
    assert_eq!(
        header_of(&home, "content-type").as_deref(),
        Some("text/html; charset=utf-8")
    );
    assert_eq!(header_of(&home, "cache-control").as_deref(), Some("no-cache"));
    assert_eq!(
        header_of(&home, "access-control-allow-origin").as_deref(),
        Some("*")
    );
    let newest = response(&store, Method::Get, "/llms.txt", None);
    assert_eq!(body_of(&newest), cache.markdown(0, 20));
    assert_eq!(
        header_of(&newest, "content-type").as_deref(),
        Some("text/markdown; charset=utf-8")
    );
    let later = response(&store, Method::Get, "/llms.txt", Some("offset=20&limit=5"));
    assert_eq!(body_of(&later), cache.markdown(20, 5));
    let page = format!("/feed/runtime/{}/page-3.json", cache.snapshot);
    let answer = response(&store, Method::Get, &page, None);
    assert_eq!(body_of(&answer), cache.pages[2]);
    assert_eq!(
        header_of(&answer, "content-type").as_deref(),
        Some("application/json; charset=utf-8")
    );
    let head = response(&store, Method::Head, &page, None);
    assert_eq!(head.status, 200);
    assert!(body_of(&head).is_empty());
    for name in ["page-0.json", "page-4.json", "page-x.json", "page-1", "1.json"] {
        let path = format!("/feed/runtime/{}/{name}", cache.snapshot);
        assert_eq!(response(&store, Method::Get, &path, None).status, 404);
    }
    assert_eq!(response(&store, Method::Get, "/feed/runtime/x", None).status, 404);
    assert_eq!(
        response(&store, Method::Get, "/feed/runtime/x/page-1.json", None).status,
        409
    );
    let search = respond(
        &store,
        Method::Get,
        "/llms.txt",
        &vec![("q".to_owned(), "note 42".to_owned())],
    );
    assert!(body_of(&search).contains(&cache.sections[42]));
    assert!(body_of(&search).contains("共找到 1 条笔记。"));
}

#[test]
fn json_strings_have_the_shortest_escapes() {
    for n in (0..0x3000u32).chain([0xfffd, 0x1f600]) {
        let c = char::from_u32(n).unwrap();
        let expected = match c {
            '"' => "\\\"".to_owned(),
            '\\' => "\\\\".to_owned(),
            '\u{8}' => "\\b".to_owned(),
            '\t' => "\\t".to_owned(),
            '\n' => "\\n".to_owned(),
            '\u{c}' => "\\f".to_owned(),
            '\r' => "\\r".to_owned(),
            _ if n < 32 => format!("\\u{n:04x}"),
            _ => c.to_string(),
        };
        assert_eq!(Json::Text(c.to_string()).encode(), format!("\"{expected}\""));
    }
}

#[test]
fn form_encoding_escapes_all_but_a_few_bytes() {
    let snapshot: String = (0..256u32).map(|n| char::from_u32(n).unwrap()).collect();
    let mut expected = String::from("q=&regex=0&offset=0&limit=20&snapshot=");
    for b in snapshot.bytes() {
        if b.is_ascii_alphanumeric() || "*-._".bytes().any(|plain| plain == b) {
            expected.push(char::from(b));
        } else if b == b' ' {
            expected.push('+');
        } else {
            expected.push_str(&format!("%{b:02X}"));
        }
    }
    let link = query("").params(0, &snapshot);
    assert_eq!(link, expected);
    assert_eq!(query(&link).snapshot, Some(snapshot));
}

#[test]
fn links_to_pages_of_notes_lead_to_them() {
    let link = page_params(40, 20);
    assert_eq!(link, "offset=40&limit=20");
    assert_eq!(parse_llm_query(Some(&link)), Ok((40, 20)));
}

#[test]
fn hostile_notes_add_no_tags() {
    let bad = "\\\"'><x y=1>&<";
    let (html, _) = rendered(
        &format!(
            r#"{{"id":"{bad}","text":"{bad} http://a.me/{bad} [{bad}]","source":"微博","title":"{bad}","publishedAt":"2026-09-12T00:00:00Z","url":"https://weibo.com/{bad}","hasVideo":true,"images":["/content-assets/social/{bad}"],"quotes":[{{"text":"{bad}","url":"https://a.me/{bad}","quotes":[{{"text":"{bad}"}}]}}],"origins":[{{"source":"X","url":"https://x.com/{bad}"}}]}}"#
        ),
        "{}",
    );
    let known = [
        "<a href=\"", "<a class=\"feed-", "</a>", "<img src=\"", "<blockquote class=\"feed-quote\"><p>",
        "<p>", "</p>", "</blockquote>", "<article class=\"feed-item\" id=\"", "</article>",
        "<div class=\"feed-", "<div id=\"body-", "</div>", "<time datetime=\"", "</time>",
        "<button class=\"feed-expand\" type=\"button\" ", "</button>",
    ];
    for (place, _) in html.match_indices('<') {
        assert!(known.iter().any(|tag| html[place..].starts_with(tag)));
    }
    assert_eq!(html.matches("<blockquote").count(), 2);
    assert!(html.contains("feed-attachment"));
    assert!(html.contains("feed-origin"));
}

#[test]
fn raw_html_in_markdown_is_shown_as_text() {
    assert_eq!(
        render_markdown("a **b** <i class=\"c\">d</i>"),
        "<p>a <strong>b</strong> &lt;i class=\"c\"&gt;d&lt;/i&gt;</p>\n"
    );
    let html = render_markdown("<img src=x onerror=alert(1)>\n\n<!-- c -->\n\n# T\n\n`<k>` <!-- d -->");
    assert!(!html.contains("<img"));
    assert!(!html.contains("<!--"));
    assert!(html.contains("&lt;img src=x onerror=alert(1)&gt;"));
    assert!(html.contains("&lt;!-- d --&gt;"));
    assert!(html.contains("<h1>T</h1>"));
    assert!(html.contains("<code>&lt;k&gt;</code>"));
    let table = render_markdown("|a|b|\n|-|-|\n|1|~~2~~[^n]|\n\n[^n]: note\n\n- [x] done");
    assert!(table.contains("<table>"));
    assert!(table.contains("<del>2</del>"));
    assert!(table.contains("footnote"));
    assert!(table.contains("checkbox"));
}

#[test]
fn events_of_raw_html_become_text() {
    let shown = show_events(vec![
        MarkdownEvent::Kept(7),
        MarkdownEvent::Html("<p>".to_owned()),
        MarkdownEvent::InlineHtml("<b>".to_owned()),
        MarkdownEvent::Text("t".to_owned()),
    ]);
    assert_eq!(shown.len(), 4);
    assert!(matches!(&shown[0], MarkdownEvent::Kept(7)));
    assert!(matches!(&shown[1], MarkdownEvent::Text(s) if s == "<p>"));
    assert!(matches!(&shown[2], MarkdownEvent::Text(s) if s == "<b>"));
    assert!(matches!(&shown[3], MarkdownEvent::Text(s) if s == "t"));
}

#[test]
fn form_encoded_pairs_are_read_in_order() {
    let read = |text: &str| pairs_of(Some(text));
    let pair = |name: &str, value: &str| (name.to_owned(), value.to_owned());
    assert!(read("").is_empty());
    assert!(read("&&").is_empty());
    assert!(pairs_of(None).is_empty());
    assert_eq!(
        read("a=1&b&=c&&a=x=y&"),
        vec![pair("a", "1"), pair("b", ""), pair("", "c"), pair("a", "x=y")]
    );
    assert_eq!(
        read("q=%E4%B8%AD+%2B%26%3d&中=%zz%4"),
        vec![pair("q", "中 +&="), pair("中", "%zz%4")]
    );
    assert_eq!(read("="), vec![pair("", "")]);
    assert_eq!(read("a=%ff"), vec![pair("a", "\u{fffd}")]);
}

#[test]
fn the_empty_keyword_finds_every_note() {
    let cache = built(&data(3));
    for text in ["", "q=", "q=+%20", "limit=5"] {
        assert_eq!(cache.search(&query(text)), Ok(vec![0, 1, 2]));
    }
    let page = value(&cache.search_body(&query("limit=2"), false).unwrap());
    assert_eq!(page["total"], 3);
    assert_eq!(page["nextOffset"], 2);
}

fn without_tags(html: &str) -> String {
    let mut out = String::new();
    let mut inside = false;
    for c in html.chars() {
        match c {
            '<' => inside = true,
            '>' => inside = false,
            _ if !inside => out.push(c),
            _ => {}
        }
    }
    out
}

#[test]
fn links_keep_the_text() {
    for text in [
        "",
        "plain <b> & 'q'",
        "见 https://a.me/x?y=1&z=2。完 http://b.me/).",
        "http://https://a.me http:// https://[x] httphttp://c",
        "a http://a.me/\"b\" <http://d.me>",
    ] {
        let html = linked_text(text);
        assert_eq!(without_tags(&html), escape(text));
        for (place, _) in html.match_indices('<') {
            assert!(html[place..].starts_with("<a href=\"http") || html[place..].starts_with("</a>"));
        }
    }
    assert_eq!(linked_text("no <address>"), escape("no <address>"));
}

#[test]
fn unknown_names_in_brackets_stay_text() {
    let table = json(r#"{"a":"https://face.t.sinajs.cn/a.png","b":"https://evil.me/b.png","c":1}"#);
    for text in [
        "[b] http://a.me/x[c]y [d",
        "http://a.me/[http://b.me/]z",
        "https[://a.me [] [[",
    ] {
        assert_eq!(social(text, "微博", &table), linked_text(text));
        assert!(!social(text, "微博", &table).contains("<img"));
    }
    assert_eq!(social("[a]", "X", &table), linked_text("[a]"));
}

#[test]
fn markdown_pages_are_as_many_as_the_notes_fill() {
    for (notes, limit, pages) in [(0, 5, 1), (1, 5, 1), (5, 5, 1), (6, 5, 2), (43, 20, 3), (3, 1, 3), (2, 1000, 1)] {
        let cache = built(&data(notes));
        let mut offset = 0;
        let mut count = 1;
        loop {
            let page = cache.markdown(offset, limit);
            let next = format!("[下一页](https://zexi.me/llms.txt?{})\n", page_params(offset + limit, limit));
            if page.ends_with(&next) {
                offset += limit;
                count += 1;
            } else {
                assert!(page.ends_with("已到最后一页。\n"));
                break;
            }
        }
        assert_eq!(count, pages);
    }
    assert_eq!(page_params(7, 1000), "offset=7&limit=1000");
}

#[test]
fn objects_are_read_in_the_order_of_their_keys() {
    let (a, b) = (
        json(r#"[{"b":1,"a":{"d":2,"c":3},"中":4}]"#),
        json(r#"[{"中":4,"a":{"c":3,"d":2},"b":1}]"#),
    );
    assert_eq!(a.encode(), r#"[{"a":{"c":3,"d":2},"b":1,"中":4}]"#);
    assert_eq!(a.encode(), b.encode());
    match (a, b) {
        (Json::List(a), Json::List(b)) => assert_eq!(snapshot_of(&a), snapshot_of(&b)),
        _ => panic!("no lists"),
    }
}
