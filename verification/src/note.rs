//! One note of the feed as HTML and as Markdown.
use vstd::prelude::*;
use vstd::slice::slice_subrange;
use vstd::string::*;

use crate::html;
use crate::html::{escape, escape_chars, quotes_html, quotes_md, social_chars};
use crate::json;
use crate::json::{Json, JsonView};
use crate::number;
use crate::number::{decimal_text, parse_number};
use crate::percent;
use crate::percent::encode_component;
use crate::text;
use crate::text::{
    has_prefix, has_suffix, is_space_char, join_texts, replaced, rfind_text, same_text,
    split_text, to_chars, to_text, without_prefixes,
};
use crate::trusted;
use crate::trusted::{
    format_date, html_of_events, parse_markdown, parse_url, sanitize, EventView, MarkdownEvent,
    UrlParts, UrlView,
};

verus! {

/// The offset of the zone that notes are dated in: eight hours.
pub const ZONE_OFFSET: i32 = 28800;

/// The date of a note, where the time of its publication can be read.
pub open spec fn note_date(item: JsonView) -> Option<Seq<char>> {
    trusted::zoned_date(item.text("publishedAt"@), 28800, "%Y-%m-%d"@)
}

/// The date of a note.
pub fn date(item: &Json) -> (r: Result<String, String>)
    ensures
        match r {
            Ok(date) => note_date(item@) == Some(date@),
            Err(message) => note_date(item@) is None && message@ == "Invalid publication date"@,
        },
{
    match format_date(item.text("publishedAt"), ZONE_OFFSET, "%Y-%m-%d") {
        Some(date) => Ok(date),
        None => Err("Invalid publication date".to_owned()),
    }
}

/// A date whose parts between the hyphens are all numbers.
pub open spec fn numeric_date(date: Seq<char>) -> bool {
    forall|i: int|
        0 <= i < text::split(date, '-').len() ==> number::parsed_number(
            #[trigger] text::split(date, '-')[i],
            u32::MAX as nat,
        ) is Some
}

/// Whether the parts of a date are all numbers.
pub fn is_numeric_date(date: &str) -> (r: bool)
    ensures
        r == numeric_date(date@),
{
    let chars = to_chars(date);
    let parts = split_text(chars.as_slice(), '-');
    let ghost all = text::split(date@, '-');
    for i in 0..parts.len()
        invariant
            all == text::split(date@, '-'),
            all == text::char_views(parts@),
            forall|j: int|
                0 <= j < i ==> number::parsed_number(#[trigger] all[j], u32::MAX as nat) is Some,
    {
        assert(all[i as int] == parts@[i as int]@);
        if parse_number(parts[i].as_slice(), u32::MAX as u64).is_none() {
            return false;
        }
    }
    true
}

/// A part of a date without leading zeros.
pub open spec fn short_part(part: Seq<char>) -> Seq<char> {
    number::decimal(number::parsed_number(part, u32::MAX as nat)->0)
}

/// A date as it is shown: without leading zeros and with slashes.
pub open spec fn shown_date(date: Seq<char>) -> Seq<char> {
    text::join(text::split(date, '-').map_values(|part: Seq<char>| short_part(part)), "/"@)
}

/// A date as it is shown: without leading zeros and with slashes.
pub fn display_date(date: &str) -> (r: String)
    requires
        numeric_date(date@),
    ensures
        r@ == shown_date(date@),
{
    let chars = to_chars(date);
    let parts = split_text(chars.as_slice(), '-');
    let ghost all = text::split(date@, '-');
    let ghost short = all.map_values(|part: Seq<char>| short_part(part));
    let mut out: Vec<String> = Vec::new();
    for i in 0..parts.len()
        invariant
            numeric_date(date@),
            all == text::split(date@, '-'),
            all == text::char_views(parts@),
            short == all.map_values(|part: Seq<char>| short_part(part)),
            text::views(out@) == short.take(i as int),
    {
        assert(all[i as int] == parts@[i as int]@);
        let ghost before = text::views(out@);
        let n = parse_number(parts[i].as_slice(), u32::MAX as u64).unwrap();
        out.push(decimal_text(n));
        assert(text::views(out@) == before.push(short[i as int]));
        assert(short.take(i + 1) == short.take(i as int).push(short[i as int]));
    }
    assert(short.take(short.len() as int) == short);
    join_texts(out.as_slice(), "/")
}

/// The name of an article: its id without the mark of its source.
pub open spec fn article_name(id: Seq<char>) -> Seq<char> {
    text::trim_prefixes(id, "GitHub blog:"@)
}

/// The HTML of an article with its own assets at the place where they are
/// served.
pub open spec fn article_html(clean: Seq<char>, id: Seq<char>) -> Seq<char> {
    let base = "/content-assets/"@ + html::escaped(article_name(id)) + "/"@;
    text::replace(
        text::replace(clean, "src=\"assets/"@, "src=\""@ + base),
        "href=\"assets/"@,
        "href=\""@ + base,
    )
}

/// The HTML of an article with its own assets at the place where they are
/// served.
pub fn article_body(clean: &str, id: &str) -> (r: String)
    ensures
        r@ == article_html(clean@, id@),
{
    let id_chars = to_chars(id);
    let name = without_prefixes(id_chars.as_slice(), to_chars("GitHub blog:").as_slice());
    let mut base = "/content-assets/".to_owned();
    base.append(escape_chars(name).as_str());
    base.append("/");
    let mut src = "src=\"".to_owned();
    src.append(base.as_str());
    let mut href = "href=\"".to_owned();
    href.append(base.as_str());
    let first = replaced(
        to_chars(clean).as_slice(),
        to_chars("src=\"assets/").as_slice(),
        to_chars(src.as_str()).as_slice(),
    );
    let second = replaced(
        first.as_slice(),
        to_chars("href=\"assets/").as_slice(),
        to_chars(href.as_str()).as_slice(),
    );
    to_text(second.as_slice())
}

/// White space, and the characters of no width.
pub open spec fn is_blank(c: char) -> bool {
    text::is_space(c) || c == '\u{200b}' || c == '\u{200c}' || c == '\u{200d}'
}

/// A text without the blanks at its front.
pub open spec fn trim_blank_start(s: Seq<char>) -> Seq<char>
    decreases s.len(),
{
    if s.len() > 0 && is_blank(s[0]) {
        trim_blank_start(s.drop_first())
    } else {
        s
    }
}

/// A text without the blanks at its back.
pub open spec fn trim_blank_end(s: Seq<char>) -> Seq<char>
    decreases s.len(),
{
    if s.len() > 0 && is_blank(s.last()) {
        trim_blank_end(s.drop_last())
    } else {
        s
    }
}

/// Some character is white space.
pub open spec fn has_space(s: Seq<char>) -> bool {
    exists|i: int| 0 <= i < s.len() && text::is_space(#[trigger] s[i])
}

/// A text that is one short link of the kind that Weibo puts for a video, with
/// or without blanks around it.
pub open spec fn is_video_link(s: Seq<char>) -> bool {
    let link = trim_blank_end(trim_blank_start(s));
    (text::starts_with(link, "http://t.cn/"@) || text::starts_with(link, "https://t.cn/"@))
        && !has_space(link)
}

/// The text of a note without the short link to its video at its end.
pub open spec fn note_content(raw: Seq<char>, has_video: bool) -> Seq<char> {
    match text::rfind(raw, "http"@) {
        Some(i) => if has_video && is_video_link(raw.skip(i)) {
            raw.take(i)
        } else {
            raw
        },
        None => raw,
    }
}

fn is_blank_char(c: char) -> (r: bool)
    ensures
        r == is_blank(c),
{
    is_space_char(c) || c == '\u{200b}' || c == '\u{200c}' || c == '\u{200d}'
}

/// Whether some character is white space.
fn holds_space(s: &[char]) -> (r: bool)
    ensures
        r == has_space(s@),
{
    for i in 0..s.len()
        invariant
            forall|j: int| 0 <= j < i ==> !text::is_space(#[trigger] s@[j]),
    {
        if is_space_char(s[i]) {
            return true;
        }
    }
    false
}

/// Whether a text is one short link to a video.
fn is_short_video_link(s: &[char]) -> (r: bool)
    ensures
        r == is_video_link(s@),
{
    let mut rest: &[char] = s;
    while rest.len() > 0 && is_blank_char(rest[0])
        invariant
            trim_blank_start(rest@) == trim_blank_start(s@),
        decreases rest@.len(),
    {
        assert(rest@.subrange(1, rest@.len() as int) == rest@.drop_first());
        rest = slice_subrange(rest, 1, rest.len());
    }
    let front = rest;
    while rest.len() > 0 && is_blank_char(rest[rest.len() - 1])
        invariant
            trim_blank_end(rest@) == trim_blank_end(front@),
        decreases rest@.len(),
    {
        assert(rest@.subrange(0, rest@.len() - 1) == rest@.drop_last());
        rest = slice_subrange(rest, 0, rest.len() - 1);
    }
    (has_prefix(rest, to_chars("http://t.cn/").as_slice()) || has_prefix(
        rest,
        to_chars("https://t.cn/").as_slice(),
    )) && !holds_space(rest)
}

/// The text of a note without the short link to its video at its end.
pub fn content_of(raw: &[char], has_video: bool) -> (r: &[char])
    ensures
        r@ == note_content(raw@, has_video),
{
    if !has_video {
        return raw;
    }
    match rfind_text(raw, to_chars("http").as_slice()) {
        Some(i) => {
            proof {
                text::lemma_rfind(raw@, "http"@);
            }
            assert(raw@.subrange(i as int, raw@.len() as int) == raw@.skip(i as int));
            assert(raw@.subrange(0, i as int) == raw@.take(i as int));
            if is_short_video_link(slice_subrange(raw, i, raw.len())) {
                slice_subrange(raw, 0, i)
            } else {
                raw
            }
        },
        None => raw,
    }
}

/// What is shown for an event of an article: the text of raw HTML in place of the
/// HTML, and anything else as it is.
pub open spec fn shown_event(event: EventView) -> EventView {
    match event {
        EventView::Html(s) => EventView::Text(s),
        EventView::InlineHtml(s) => EventView::Text(s),
        other => other,
    }
}

/// What is shown for the events of an article.
pub open spec fn shown_events(events: Seq<EventView>) -> Seq<EventView> {
    events.map_values(|event: EventView| shown_event(event))
}

/// Markdown as HTML, with the raw HTML in it as text.
pub open spec fn markdown_html(markdown: Seq<char>) -> Seq<char> {
    trusted::events_html(markdown, shown_events(trusted::markdown_events(markdown)))
}

/// What is shown for the events of an article: the text of raw HTML in place of the
/// HTML, and anything else as it is.
pub fn show_events(events: Vec<MarkdownEvent>) -> (r: Vec<MarkdownEvent>)
    ensures
        trusted::event_views(r@) == shown_events(trusted::event_views(events@)),
{
    let ghost all = shown_events(trusted::event_views(events@));
    let mut out: Vec<MarkdownEvent> = Vec::new();
    for i in 0..events.len()
        invariant
            all == shown_events(trusted::event_views(events@)),
            trusted::event_views(out@) == all.take(i as int),
    {
        let ghost before = trusted::event_views(out@);
        let event = match &events[i] {
            MarkdownEvent::Html(s) => MarkdownEvent::Text(s.clone()),
            MarkdownEvent::InlineHtml(s) => MarkdownEvent::Text(s.clone()),
            MarkdownEvent::Text(s) => MarkdownEvent::Text(s.clone()),
            MarkdownEvent::Kept(k) => MarkdownEvent::Kept(*k),
        };
        assert(event@ == all[i as int]);
        out.push(event);
        assert(trusted::event_views(out@) == before.push(all[i as int]));
        assert(all.take(i + 1) == all.take(i as int).push(all[i as int]));
    }
    assert(all.take(all.len() as int) == all);
    out
}

/// Markdown as HTML, with the raw HTML in it as text.
pub fn render_markdown(markdown: &str) -> (r: String)
    ensures
        r@ == markdown_html(markdown@),
{
    let events = parse_markdown(markdown);
    let ghost parsed = trusted::event_views(events@);
    let shown = show_events(events);
    proof {
        let views = trusted::event_views(shown@);
        assert forall|k: int| 0 <= k < views.len() && #[trigger] views[k] is Kept implies views[
            k
        ]->Kept_0 < parsed.len() by {
            assert(views[k] == parsed[k]);
        }
    }
    html_of_events(markdown, &shown)
}

/// No raw HTML of an article is written as HTML: wherever its Markdown holds some,
/// what is written is text that reads the same, and everything else is written as
/// it stands.
pub proof fn law_raw_html_is_shown_as_text(markdown: Seq<char>)
    ensures
        ({
            let parsed = trusted::markdown_events(markdown);
            let shown = shown_events(parsed);
            &&& markdown_html(markdown) == trusted::events_html(markdown, shown)
            &&& shown.len() == parsed.len()
            &&& forall|k: int|
                0 <= k < shown.len() ==> match #[trigger] parsed[k] {
                    EventView::Html(s) => shown[k] == EventView::Text(s),
                    EventView::InlineHtml(s) => shown[k] == EventView::Text(s),
                    other => shown[k] == other,
                }
            &&& forall|k: int|
                0 <= k < shown.len() ==> !(#[trigger] shown[k] is Html) && !(shown[k]
                    is InlineHtml)
        }),
{
}

/// The note comes from the blog, whose texts are Markdown.
pub open spec fn is_article(item: JsonView) -> bool {
    item.text("source"@) == "GitHub blog"@
}

/// The body of a note as HTML.
pub open spec fn body_html(item: JsonView, emojis: JsonView) -> Seq<char> {
    let raw = item.text("text"@);
    if is_article(item) {
        article_html(
            trusted::sanitized_html(markdown_html(raw), "class"@),
            item.text("id"@),
        )
    } else {
        "<p>"@ + html::social_html(
            note_content(raw, item.flag("hasVideo"@)),
            item.text("source"@),
            emojis,
        ) + "</p>"@
    }
}

/// Whether a note comes from the blog.
fn from_blog(item: &Json) -> (r: bool)
    ensures
        r == is_article(item@),
{
    same_text(item.text("source"), "GitHub blog")
}

/// The body of a note as HTML: that of an article is rendered and sanitised, and
/// that of any other note is text with links and emoji.
pub fn render_body(item: &Json, emojis: &Json) -> (r: String)
    ensures
        r@ == body_html(item@, emojis@),
{
    let raw = item.text("text");
    if from_blog(item) {
        proof {
            reveal_strlit("class");
            reveal_strlit("rel");
            assert("class"@.len() != "rel"@.len());
        }
        let html = render_markdown(raw);
        let clean = sanitize(html.as_str(), "class");
        article_body(clean.as_str(), item.text("id"))
    } else {
        let chars = to_chars(raw);
        let content = content_of(chars.as_slice(), item.flag("hasVideo"));
        let mut out = "<p>".to_owned();
        out.append(social_chars(content, item.text("source"), emojis).as_str());
        out.append("</p>");
        out
    }
}

/// The link to a note on X, where the address is one of that site.
pub open spec fn x_label(url: Option<UrlView>) -> Seq<char> {
    match url {
        Some(parts) => if parts.scheme == "https"@ && (parts.host == Some("x.com"@) || parts.host
            == Some("www.x.com"@)) {
            "<a class=\"feed-origin\" href=\""@ + html::escaped(parts.text)
                + "\" target=\"_blank\" rel=\"noopener\">X</a>"@
        } else {
            Seq::empty()
        },
        None => Seq::empty(),
    }
}

/// What a text is as a URL, if it is one.
pub open spec fn as_url(s: Seq<char>) -> Option<UrlView> {
    match trusted::url_parsed(s) {
        Ok(parts) => Some(parts),
        Err(_) => None,
    }
}

/// The link to an article in the repository of the blog.
pub open spec fn blog_label(id: Seq<char>) -> Seq<char> {
    "<a href=\"https://github.com/wangzexi/blog/blob/main/"@ + percent::encoded_component(
        article_name(id),
    ) + "/README.md\" target=\"_blank\" rel=\"noopener\">GitHub</a>"@
}

/// The link to one of the places where a note was published.
pub open spec fn origin_label(item: JsonView, origin: JsonView) -> Seq<char> {
    if origin.text("source"@) == "GitHub blog"@ && is_article(item) {
        blog_label(item.text("id"@))
    } else if origin.text("source"@) == "X"@ {
        x_label(as_url(origin.text("url"@)))
    } else {
        Seq::empty()
    }
}

/// The links to several places where a note was published.
pub open spec fn origin_labels(item: JsonView, origins: Seq<JsonView>) -> Seq<char>
    decreases origins.len(),
{
    if origins.len() == 0 {
        Seq::empty()
    } else {
        origin_labels(item, origins.drop_last()) + origin_label(item, origins.last())
    }
}

/// The places where a note was published: those that it lists, or the note
/// itself.
pub open spec fn origins_of(item: JsonView) -> Seq<JsonView> {
    match item.get("origins"@) {
        JsonView::List(origins) => origins,
        _ => seq![item],
    }
}

/// The link to a note on X, where the address is one of that site.
pub fn x_link(url: Option<&UrlParts>) -> (r: String)
    ensures
        r@ == x_label(
            match url {
                Some(parts) => Some(parts@),
                None => None,
            },
        ),
{
    if let Some(parts) = url {
        let on_x = match &parts.host {
            Some(host) => *host == "x.com".to_owned() || *host == "www.x.com".to_owned(),
            None => false,
        };
        if parts.scheme == "https".to_owned() && on_x {
            let mut out = "<a class=\"feed-origin\" href=\"".to_owned();
            out.append(escape(parts.text.as_str()).as_str());
            out.append("\" target=\"_blank\" rel=\"noopener\">X</a>");
            return out;
        }
    }
    String::new()
}

/// The link to an article in the repository of the blog.
pub fn blog_link(id: &str) -> (r: String)
    ensures
        r@ == blog_label(id@),
{
    let chars = to_chars(id);
    let name = without_prefixes(chars.as_slice(), to_chars("GitHub blog:").as_slice());
    let slug = encode_component(to_text(name).as_str());
    let mut out = "<a href=\"https://github.com/wangzexi/blog/blob/main/".to_owned();
    out.append(slug.as_str());
    out.append("/README.md\" target=\"_blank\" rel=\"noopener\">GitHub</a>");
    out
}

/// The link to one of the places where a note was published.
fn origin_link(item: &Json, origin: &Json) -> (r: String)
    ensures
        r@ == origin_label(item@, origin@),
{
    let source = origin.text("source").to_owned();
    if source == "GitHub blog".to_owned() && from_blog(item) {
        blog_link(item.text("id"))
    } else if source == "X".to_owned() {
        match parse_url(origin.text("url")) {
            Ok(parts) => x_link(Some(&parts)),
            Err(_) => x_link(None),
        }
    } else {
        String::new()
    }
}

/// The links to the places where a note was published.
pub fn render_labels(item: &Json) -> (r: String)
    ensures
        r@ == origin_labels(item@, origins_of(item@)),
{
    match item.list("origins") {
        Some(v) => {
            let ghost all = json::json_views(v@);
            let mut out = String::new();
            assert(all.take(0) == Seq::<JsonView>::empty());
            for i in 0..v.len()
                invariant
                    all == json::json_views(v@),
                    out@ == origin_labels(item@, all.take(i as int)),
            {
                assert(all.take(i + 1).drop_last() == all.take(i as int));
                assert(all.take(i + 1).last() == v@[i as int]@);
                out.append(origin_link(item, &v[i]).as_str());
            }
            assert(all.take(all.len() as int) == all);
            out
        },
        None => {
            let out = origin_link(item, item);
            proof {
                let one = seq![item@];
                assert(one.drop_last() == Seq::<JsonView>::empty());
                assert(origin_labels(item@, one.drop_last()) == Seq::<char>::empty());
                assert(Seq::<char>::empty() + out@ == out@);
            }
            out
        },
    }
}

/// A lower case hexadecimal digit.
pub open spec fn is_hex(c: char) -> bool {
    '0' <= c <= '9' || 'a' <= c <= 'f'
}

/// The path of a video in the store: a hash of 64 digits.
pub open spec fn valid_video(path: Seq<char>) -> bool {
    let prefix = "/content-assets/social/"@;
    let rest = path.skip(prefix.len() as int);
    let hash = rest.take(rest.len() - 4);
    &&& text::starts_with(path, prefix)
    &&& text::ends_with(rest, ".mp4"@)
    &&& hash.len() == 64
    &&& forall|i: int| 0 <= i < hash.len() ==> is_hex(#[trigger] hash[i])
}

/// A video as HTML.
pub open spec fn video_html(path: Seq<char>) -> Seq<char> {
    "<video class=\"feed-video\" controls playsinline preload=\"metadata\" aria-label=\"视频\" src=\""@
        + html::escaped(path) + "\">浏览器无法播放此视频，<a href=\""@ + html::escaped(path)
        + "\">打开视频</a>。</video>"@
}

/// Videos as HTML. What is no path of a video is left out.
pub open spec fn video_list_html(items: Seq<JsonView>) -> Seq<char>
    decreases items.len(),
{
    if items.len() == 0 {
        Seq::empty()
    } else {
        video_list_html(items.drop_last()) + match items.last() {
            JsonView::Text(path) => if valid_video(path) {
                video_html(path)
            } else {
                Seq::empty()
            },
            _ => Seq::empty(),
        }
    }
}

/// The videos of a note as HTML.
pub open spec fn videos_html(item: JsonView) -> Seq<char> {
    let list = video_list_html(item.get("videos"@).elements());
    if list.len() == 0 {
        list
    } else {
        "<div class=\"feed-videos\">"@ + list + "</div>"@
    }
}

/// The link to a video that is not in the store.
pub open spec fn video_link_html(item: JsonView) -> Seq<char> {
    if videos_html(item).len() == 0 && item.flag("hasVideo"@) && text::starts_with(
        item.text("url"@),
        "https://weibo.com/"@,
    ) {
        "<a class=\"feed-attachment\" href=\""@ + html::escaped(item.text("url"@))
            + "\" target=\"_blank\" rel=\"noopener\">查看视频附件 ↗</a>"@
    } else {
        Seq::empty()
    }
}

/// Whether a path is that of a video in the store.
pub fn is_valid_video(path: &str) -> (r: bool)
    ensures
        r == valid_video(path@),
{
    let chars = to_chars(path);
    let prefix = to_chars("/content-assets/social/");
    let suffix = to_chars(".mp4");
    if !has_prefix(chars.as_slice(), prefix.as_slice()) {
        return false;
    }
    let rest = slice_subrange(chars.as_slice(), prefix.len(), chars.len());
    assert(rest@ == path@.skip(prefix@.len() as int));
    proof {
        reveal_strlit(".mp4");
    }
    if !has_suffix(rest, suffix.as_slice()) {
        return false;
    }
    let hash = slice_subrange(rest, 0, rest.len() - 4);
    assert(hash@ == rest@.take(rest@.len() - 4));
    if hash.len() != 64 {
        return false;
    }
    for i in 0..hash.len()
        invariant
            hash@ == path@.skip("/content-assets/social/"@.len() as int).take(
                path@.skip("/content-assets/social/"@.len() as int).len() - 4,
            ),
            forall|j: int| 0 <= j < i ==> is_hex(#[trigger] hash@[j]),
    {
        let c = hash[i];
        if !(('0' <= c && c <= '9') || ('a' <= c && c <= 'f')) {
            assert(!is_hex(hash@[i as int]));
            return false;
        }
    }
    true
}

/// A video as HTML.
fn render_video(path: &str) -> (r: String)
    ensures
        r@ == video_html(path@),
{
    let safe = escape(path);
    let mut out =
        "<video class=\"feed-video\" controls playsinline preload=\"metadata\" aria-label=\"视频\" src=\"".to_owned();
    out.append(safe.as_str());
    out.append("\">浏览器无法播放此视频，<a href=\"");
    out.append(safe.as_str());
    out.append("\">打开视频</a>。</video>");
    out
}

/// The videos of a note as HTML.
pub fn render_videos(item: &Json) -> (r: String)
    ensures
        r@ == videos_html(item@),
{
    let mut list = String::new();
    let ghost all = item@.get("videos"@).elements();
    if let Some(v) = item.list("videos") {
        assert(all == json::json_views(v@));
        assert(all.take(0) == Seq::<JsonView>::empty());
        for i in 0..v.len()
            invariant
                all == json::json_views(v@),
                list@ == video_list_html(all.take(i as int)),
        {
            assert(all.take(i + 1).drop_last() == all.take(i as int));
            assert(all.take(i + 1).last() == v@[i as int]@);
            let ghost before = list@;
            if let Some(path) = v[i].as_str() {
                if is_valid_video(path) {
                    list.append(render_video(path).as_str());
                }
            }
            assert(before + Seq::<char>::empty() == before);
        }
        assert(all.take(all.len() as int) == all);
    }
    assert(list@ == video_list_html(all));
    if list.as_str().is_empty() {
        list
    } else {
        let mut out = "<div class=\"feed-videos\">".to_owned();
        out.append(list.as_str());
        out.append("</div>");
        out
    }
}

/// The link to a video that is not in the store.
fn render_video_link(item: &Json, videos: &str) -> (r: String)
    requires
        videos@ == videos_html(item@),
    ensures
        r@ == video_link_html(item@),
{
    let url = item.text("url");
    if videos.is_empty() && item.flag("hasVideo") && has_prefix(
        to_chars(url).as_slice(),
        to_chars("https://weibo.com/").as_slice(),
    ) {
        let mut out = "<a class=\"feed-attachment\" href=\"".to_owned();
        out.append(escape(url).as_str());
        out.append("\" target=\"_blank\" rel=\"noopener\">查看视频附件 ↗</a>");
        out
    } else {
        String::new()
    }
}

/// The paths of the pictures of a note that are in the store.
pub open spec fn image_paths(items: Seq<JsonView>) -> Seq<Seq<char>>
    decreases items.len(),
{
    if items.len() == 0 {
        Seq::empty()
    } else {
        let front = image_paths(items.drop_last());
        match items.last() {
            JsonView::Text(path) => if text::starts_with(path, "/content-assets/social/"@) {
                front.push(path)
            } else {
                front
            },
            _ => front,
        }
    }
}

/// The picture with a given number as HTML.
pub open spec fn image_html(path: Seq<char>, n: nat) -> Seq<char> {
    "<a href=\""@ + html::escaped(path) + "\" class=\"feed-image\" aria-label=\"放大第 "@
        + number::decimal(n) + " 张配图\"><img src=\""@ + html::escaped(path) + "\" alt=\"配图 "@
        + number::decimal(n) + "\" loading=\"lazy\" width=\"160\" height=\"160\" /></a>"@
}

/// Pictures as HTML, numbered from one.
pub open spec fn image_list_html(paths: Seq<Seq<char>>) -> Seq<char>
    decreases paths.len(),
{
    if paths.len() == 0 {
        Seq::empty()
    } else {
        image_list_html(paths.drop_last()) + image_html(paths.last(), paths.len())
    }
}

/// Pictures as Markdown.
pub open spec fn image_list_md(paths: Seq<Seq<char>>) -> Seq<char>
    decreases paths.len(),
{
    if paths.len() == 0 {
        Seq::empty()
    } else {
        image_list_md(paths.drop_last()) + "![配图](https://zexi.me"@ + html::escaped(paths.last())
            + ")\n\n"@
    }
}

/// The pictures of a note as HTML.
pub open spec fn images_html(paths: Seq<Seq<char>>) -> Seq<char> {
    if paths.len() == 0 {
        Seq::empty()
    } else {
        "<div class=\"feed-images\">"@ + image_list_html(paths) + "</div>"@
    }
}

/// The paths of the pictures of a note that are in the store.
pub fn images_of(item: &Json) -> (r: Vec<String>)
    ensures
        text::views(r@) == image_paths(item@.get("images"@).elements()),
{
    let mut out: Vec<String> = Vec::new();
    let ghost all = item@.get("images"@).elements();
    assert(text::views(out@) == Seq::<Seq<char>>::empty());
    if let Some(v) = item.list("images") {
        assert(all == json::json_views(v@));
        assert(all.take(0) == Seq::<JsonView>::empty());
        for i in 0..v.len()
            invariant
                all == json::json_views(v@),
                text::views(out@) == image_paths(all.take(i as int)),
        {
            assert(all.take(i + 1).drop_last() == all.take(i as int));
            assert(all.take(i + 1).last() == v@[i as int]@);
            let ghost before = text::views(out@);
            if let Some(path) = v[i].as_str() {
                if has_prefix(
                    to_chars(path).as_slice(),
                    to_chars("/content-assets/social/").as_slice(),
                ) {
                    out.push(path.to_owned());
                    assert(text::views(out@) == before.push(path@));
                }
            }
        }
        assert(all.take(all.len() as int) == all);
    }
    out
}

/// The picture with a given number as HTML.
fn render_image(path: &str, n: usize) -> (r: String)
    ensures
        r@ == image_html(path@, n as nat),
{
    let safe = escape(path);
    let numeral = decimal_text(n as u64);
    let mut out = "<a href=\"".to_owned();
    out.append(safe.as_str());
    out.append("\" class=\"feed-image\" aria-label=\"放大第 ");
    out.append(numeral.as_str());
    out.append(" 张配图\"><img src=\"");
    out.append(safe.as_str());
    out.append("\" alt=\"配图 ");
    out.append(numeral.as_str());
    out.append("\" loading=\"lazy\" width=\"160\" height=\"160\" /></a>");
    out
}

/// The pictures of a note as HTML.
pub fn render_images(paths: &Vec<String>) -> (r: String)
    ensures
        r@ == images_html(text::views(paths@)),
{
    let ghost all = text::views(paths@);
    if paths.len() == 0 {
        return String::new();
    }
    let mut out = "<div class=\"feed-images\">".to_owned();
    let ghost opening = out@;
    assert(all.take(0) == Seq::<Seq<char>>::empty());
    assert(opening + Seq::<char>::empty() == opening);
    for i in 0..paths.len()
        invariant
            all == text::views(paths@),
            out@ == opening + image_list_html(all.take(i as int)),
    {
        let ghost next = all.take(i + 1);
        assert(next.drop_last() == all.take(i as int));
        assert(next.last() == paths@[i as int]@);
        let image = render_image(paths[i].as_str(), i + 1);
        let ghost before = image_list_html(all.take(i as int));
        out.append(image.as_str());
        assert(opening + before + image@ == opening + (before + image@));
    }
    assert(all.take(all.len() as int) == all);
    out.append("</div>");
    out
}

/// The pictures of a note as Markdown.
pub fn render_images_md(paths: &Vec<String>) -> (r: String)
    ensures
        r@ == image_list_md(text::views(paths@)),
{
    let ghost all = text::views(paths@);
    let mut out = String::new();
    assert(all.take(0) == Seq::<Seq<char>>::empty());
    for i in 0..paths.len()
        invariant
            all == text::views(paths@),
            out@ == image_list_md(all.take(i as int)),
    {
        let ghost next = all.take(i + 1);
        assert(next.drop_last() == all.take(i as int));
        assert(next.last() == paths@[i as int]@);
        out.append("![配图](https://zexi.me");
        out.append(escape(paths[i].as_str()).as_str());
        out.append(")\n\n");
    }
    assert(all.take(all.len() as int) == all);
    out
}

/// What stands before the body of a note.
pub open spec fn note_head(item: JsonView, date: Seq<char>) -> Seq<char> {
    let id = html::escaped(item.text("id"@));
    "<article class=\"feed-item\" id=\""@ + id + "\"><div class=\"feed-item__meta\">"@
        + origin_labels(item, origins_of(item)) + "<time datetime=\""@ + html::escaped(
        item.text("publishedAt"@),
    ) + "\">"@ + shown_date(date) + "</time></div>"@ + note_heading(item)
        + "<div id=\"body-"@ + id + "\" class=\"feed-body"@ + note_class(item)
        + "\" data-collapsed=\"true\">"@
}

/// The title of an article as HTML.
pub open spec fn note_heading(item: JsonView) -> Seq<char> {
    if is_article(item) {
        "<h3>"@ + html::escaped(item.text("title"@)) + "</h3>"@
    } else {
        Seq::empty()
    }
}

/// The class that sets the body of an article apart.
pub open spec fn note_class(item: JsonView) -> Seq<char> {
    if is_article(item) {
        " markdown-section"@
    } else {
        Seq::empty()
    }
}

/// What stands behind the body of a note.
pub open spec fn note_foot(item: JsonView, emojis: JsonView) -> Seq<char> {
    let id = html::escaped(item.text("id"@));
    html::quotes_as_html(item.get("quotes"@).elements(), emojis, 0) + video_link_html(item)
        + "</div><button class=\"feed-expand\" type=\"button\" aria-expanded=\"false\" aria-controls=\"body-"@
        + id + "\" hidden>展开</button>"@ + images_html(
        image_paths(item.get("images"@).elements()),
    ) + videos_html(item) + "</article>"@
}

/// A note with a given date as HTML.
pub open spec fn item_html(item: JsonView, emojis: JsonView, date: Seq<char>) -> Seq<char> {
    note_head(item, date) + body_html(item, emojis) + note_foot(item, emojis)
}

/// A note with a given date as Markdown.
pub open spec fn item_md(item: JsonView, date: Seq<char>) -> Seq<char> {
    "## "@ + (if is_article(item) {
        item.text("title"@) + "\n\n"@ + date
    } else {
        date
    }) + "\n\n"@ + item.text("text"@) + "\n\n"@ + image_list_md(
        image_paths(item.get("images"@).elements()),
    ) + html::quotes_as_md(item.get("quotes"@).elements(), 0) + "\n---\n\n"@
}

/// The notes that a note quotes, as HTML.
fn nested_html(item: &Json, emojis: &Json) -> (r: String)
    ensures
        r@ == html::quotes_as_html(item@.get("quotes"@).elements(), emojis@, 0),
{
    match item.find("quotes") {
        Some(quotes) => quotes_html(quotes, emojis, 0),
        None => String::new(),
    }
}

/// The notes that a note quotes, as Markdown.
pub fn nested_md(item: &Json) -> (r: String)
    ensures
        r@ == html::quotes_as_md(item@.get("quotes"@).elements(), 0),
{
    match item.find("quotes") {
        Some(quotes) => quotes_md(quotes, 0),
        None => String::new(),
    }
}

/// What stands before the body of a note.
fn render_head(item: &Json, date: &str) -> (r: String)
    requires
        numeric_date(date@),
    ensures
        r@ == note_head(item@, date@),
{
    let article = from_blog(item);
    let id = escape(item.text("id"));
    let heading = if article {
        let mut h = "<h3>".to_owned();
        h.append(escape(item.text("title")).as_str());
        h.append("</h3>");
        h
    } else {
        String::new()
    };
    let class = if article {
        " markdown-section".to_owned()
    } else {
        String::new()
    };
    let mut out = "<article class=\"feed-item\" id=\"".to_owned();
    out.append(id.as_str());
    out.append("\"><div class=\"feed-item__meta\">");
    out.append(render_labels(item).as_str());
    out.append("<time datetime=\"");
    out.append(escape(item.text("publishedAt")).as_str());
    out.append("\">");
    out.append(display_date(date).as_str());
    out.append("</time></div>");
    out.append(heading.as_str());
    out.append("<div id=\"body-");
    out.append(id.as_str());
    out.append("\" class=\"feed-body");
    out.append(class.as_str());
    out.append("\" data-collapsed=\"true\">");
    out
}

/// What stands behind the body of a note.
fn render_foot(item: &Json, emojis: &Json) -> (r: String)
    ensures
        r@ == note_foot(item@, emojis@),
{
    let paths = images_of(item);
    let videos = render_videos(item);
    let mut out = nested_html(item, emojis);
    out.append(render_video_link(item, videos.as_str()).as_str());
    out.append(
        "</div><button class=\"feed-expand\" type=\"button\" aria-expanded=\"false\" aria-controls=\"body-",
    );
    out.append(escape(item.text("id")).as_str());
    out.append("\" hidden>展开</button>");
    out.append(render_images(&paths).as_str());
    out.append(videos.as_str());
    out.append("</article>");
    out
}

/// A note with a given date as HTML.
fn render_html(item: &Json, emojis: &Json, date: &str) -> (r: String)
    requires
        numeric_date(date@),
    ensures
        r@ == item_html(item@, emojis@, date@),
{
    let mut out = render_head(item, date);
    out.append(render_body(item, emojis).as_str());
    out.append(render_foot(item, emojis).as_str());
    out
}

/// A note with a given date as Markdown.
pub fn render_md(item: &Json, date: &str) -> (r: String)
    ensures
        r@ == item_md(item@, date@),
{
    let heading = if from_blog(item) {
        let mut h = item.text("title").to_owned();
        h.append("\n\n");
        h.append(date);
        h
    } else {
        date.to_owned()
    };
    let paths = images_of(item);
    let mut out = "## ".to_owned();
    out.append(heading.as_str());
    out.append("\n\n");
    out.append(item.text("text"));
    out.append("\n\n");
    out.append(render_images_md(&paths).as_str());
    out.append(nested_md(item).as_str());
    out.append("\n---\n\n");
    out
}

/// A note with a given date as HTML and as Markdown.
pub fn render_dated(item: &Json, emojis: &Json, date: &str) -> (r: (String, String))
    requires
        numeric_date(date@),
    ensures
        r.0@ == item_html(item@, emojis@, date@),
        r.1@ == item_md(item@, date@),
{
    (render_html(item, emojis, date), render_md(item, date))
}

/// The date of a note, where it has one, can be shown. It cannot where it lies
/// before the year zero: the sign of the year is a hyphen too.
pub open spec fn showable(item: JsonView) -> bool {
    match note_date(item) {
        Some(date) => numeric_date(date),
        None => true,
    }
}

/// A note as HTML and as Markdown.
pub fn render_item(item: &Json, emojis: &Json) -> (r: Result<(String, String), String>)
    requires
        showable(item@),
    ensures
        match r {
            Ok(pair) => note_date(item@) is Some && pair.0@ == item_html(
                item@,
                emojis@,
                note_date(item@)->0,
            ) && pair.1@ == item_md(item@, note_date(item@)->0),
            Err(message) => note_date(item@) is None && message@ == "Invalid publication date"@,
        },
{
    match date(item) {
        Err(message) => Err(message),
        Ok(date) => Ok(render_dated(item, emojis, date.as_str())),
    }
}

/// A note as HTML and as Markdown, where its date can be shown.
pub fn try_render_item(item: &Json, emojis: &Json) -> (r: Option<Result<(String, String), String>>)
    ensures
        match r {
            Some(Ok(pair)) => showable(item@) && note_date(item@) is Some && pair.0@ == item_html(
                item@,
                emojis@,
                note_date(item@)->0,
            ) && pair.1@ == item_md(item@, note_date(item@)->0),
            Some(Err(message)) => note_date(item@) is None && message@
                == "Invalid publication date"@,
            None => !showable(item@),
        },
{
    if is_showable(item) {
        Some(render_item(item, emojis))
    } else {
        None
    }
}

/// Whether the date of a note, where it has one, can be shown.
pub fn is_showable(item: &Json) -> (r: bool)
    ensures
        r == showable(item@),
{
    match date(item) {
        Ok(date) => is_numeric_date(date.as_str()),
        Err(_) => true,
    }
}

} // verus!
