//! What the HTML of notes can hold: whatever the notes hold, no tags but those
//! that they are rendered with.
use vstd::prelude::*;
use vstd::utf8;

use crate::html;
use crate::json::JsonView;
use crate::note;
use crate::number;
use crate::percent;
use crate::text;
use crate::trusted;
use crate::trusted::UrlView;

verus! {

/// A text without any character that opens or closes a tag or an attribute.
pub open spec fn is_inert(s: Seq<char>) -> bool {
    forall|i: int|
        0 <= i < s.len() ==> #[trigger] s[i] != '<' && s[i] != '>' && s[i] != '"' && s[i] != '\''
}

/// Escaped text is inert: it holds nothing that opens or closes a tag or an
/// attribute.
pub proof fn law_escaped_text_is_inert(s: Seq<char>)
    ensures
        is_inert(html::escaped(s)),
    decreases s.len(),
{
    if s.len() > 0 {
        law_escaped_text_is_inert(s.drop_last());
        reveal_strlit("&amp;");
        reveal_strlit("&lt;");
        reveal_strlit("&gt;");
        reveal_strlit("&quot;");
        reveal_strlit("&#39;");
        let last = html::entity(s.last());
        assert(is_inert(last));
        let front = html::escaped(s.drop_last());
        let all = html::escaped(s);
        assert forall|i: int| 0 <= i < all.len() implies #[trigger] all[i] != '<' && all[i] != '>'
            && all[i] != '"' && all[i] != '\'' by {
            if i < front.len() {
                assert(all[i] == front[i]);
            } else {
                assert(all[i] == last[i - front.len()]);
            }
        }
    }
}

/// The tags that notes are rendered with.
pub open spec fn is_known_tag(s: Seq<char>) -> bool {
    ||| text::starts_with(s, "<a href=\""@)
    ||| text::starts_with(s, "<a class=\"feed-original\" href=\""@)
    ||| text::starts_with(s, "<a class=\"feed-origin\" href=\""@)
    ||| text::starts_with(s, "<a class=\"feed-attachment\" href=\""@)
    ||| text::starts_with(s, "</a>"@)
    ||| text::starts_with(s, "<img class=\"weibo-emoji\" src=\""@)
    ||| text::starts_with(s, "<img src=\""@)
    ||| text::starts_with(s, "<blockquote class=\"feed-quote\">"@)
    ||| text::starts_with(s, "</blockquote>"@)
    ||| text::starts_with(s, "<p>"@)
    ||| text::starts_with(s, "</p>"@)
    ||| text::starts_with(s, "<small>"@)
    ||| text::starts_with(s, "</small>"@)
    ||| text::starts_with(s, "<article class=\"feed-item\" id=\""@)
    ||| text::starts_with(s, "</article>"@)
    ||| text::starts_with(s, "<div class=\"feed-"@)
    ||| text::starts_with(s, "<div id=\"body-"@)
    ||| text::starts_with(s, "</div>"@)
    ||| text::starts_with(s, "<time datetime=\""@)
    ||| text::starts_with(s, "</time>"@)
    ||| text::starts_with(s, "<h3>"@)
    ||| text::starts_with(s, "</h3>"@)
    ||| text::starts_with(s, "<button class=\"feed-expand\" type=\"button\" "@)
    ||| text::starts_with(s, "</button>"@)
    ||| text::starts_with(s, "<video class=\"feed-video\" "@)
    ||| text::starts_with(s, "</video>"@)
}

/// Every tag in a piece of HTML is a known one.
pub open spec fn only_known_tags(s: Seq<char>) -> bool {
    forall|i: int| 0 <= i < s.len() && #[trigger] s[i] == '<' ==> is_known_tag(s.skip(i))
}

/// What stands at a place of a text still stands there when more follows.
pub proof fn lemma_prefix_of_concat(a: Seq<char>, b: Seq<char>, i: int, p: Seq<char>)
    requires
        0 <= i <= a.len(),
        text::starts_with(a.skip(i), p),
    ensures
        text::starts_with((a + b).skip(i), p),
{
    assert((a + b).skip(i).take(p.len() as int) == a.skip(i).take(p.len() as int));
}

/// HTML with known tags alone stays so when more of it follows.
proof fn lemma_known_concat(a: Seq<char>, b: Seq<char>)
    requires
        only_known_tags(a),
        only_known_tags(b),
    ensures
        only_known_tags(a + b),
{
    let s = a + b;
    assert forall|i: int| 0 <= i < s.len() && #[trigger] s[i] == '<' implies is_known_tag(
        s.skip(i),
    ) by {
        if i < a.len() {
            assert(a[i] == '<');
            assert forall|p: Seq<char>| #[trigger]
                text::starts_with(a.skip(i), p) implies text::starts_with(s.skip(i), p) by {
                lemma_prefix_of_concat(a, b, i, p);
            }
        } else {
            assert(b[i - a.len()] == '<');
            assert(s.skip(i) == b.skip(i - a.len()));
        }
    }
}

/// Text without tags has known tags alone.
proof fn lemma_inert_known(s: Seq<char>)
    requires
        forall|i: int| 0 <= i < s.len() ==> #[trigger] s[i] != '<',
    ensures
        only_known_tags(s),
{
}

/// Three pieces of HTML with known tags alone.
proof fn lemma_known_three(a: Seq<char>, b: Seq<char>, c: Seq<char>)
    requires
        only_known_tags(a),
        only_known_tags(b),
        only_known_tags(c),
    ensures
        only_known_tags(a + b + c),
{
    lemma_known_concat(a, b);
    lemma_known_concat(a + b, c);
}

/// Five pieces of HTML with known tags alone.
proof fn lemma_known_five(a: Seq<char>, b: Seq<char>, c: Seq<char>, d: Seq<char>, e: Seq<char>)
    requires
        only_known_tags(a),
        only_known_tags(b),
        only_known_tags(c),
        only_known_tags(d),
        only_known_tags(e),
    ensures
        only_known_tags(a + b + c + d + e),
{
    lemma_known_three(a, b, c);
    lemma_known_three(a + b + c, d, e);
}

/// A known tag that stands at some place.
pub proof fn lemma_tag_at(s: Seq<char>, i: int, tag: Seq<char>)
    requires
        0 <= i,
        i + tag.len() <= s.len(),
        forall|k: int| 0 <= k < tag.len() ==> #[trigger] tag[k] == s[i + k],
    ensures
        text::starts_with(s.skip(i), tag),
{
    assert(s.skip(i).take(tag.len() as int) =~= tag);
}

/// The fixed parts of links and emoji have known tags alone.
proof fn lemma_text_frames()
    ensures
        only_known_tags("<a href=\""@),
        only_known_tags("\" target=\"_blank\" rel=\"noopener\">"@),
        only_known_tags("</a>"@),
        only_known_tags("<img class=\"weibo-emoji\" src=\""@),
        only_known_tags("\" alt=\""@),
        only_known_tags("\" title=\""@),
        only_known_tags(
            "\" width=\"20\" height=\"20\" loading=\"lazy\" referrerpolicy=\"no-referrer\">"@,
        ),
        only_known_tags("["@),
{
    reveal_strlit("<a href=\"");
    lemma_tag_at("<a href=\""@, 0, "<a href=\""@);
    reveal_strlit("\" target=\"_blank\" rel=\"noopener\">");
    reveal_strlit("</a>");
    lemma_tag_at("</a>"@, 0, "</a>"@);
    reveal_strlit("<img class=\"weibo-emoji\" src=\"");
    lemma_tag_at("<img class=\"weibo-emoji\" src=\""@, 0, "<img class=\"weibo-emoji\" src=\""@);
    reveal_strlit("\" alt=\"");
    reveal_strlit("\" title=\"");
    reveal_strlit("\" width=\"20\" height=\"20\" loading=\"lazy\" referrerpolicy=\"no-referrer\">");
    reveal_strlit("[");
}

/// The fixed parts of quoted notes have known tags alone.
proof fn lemma_quote_frames()
    ensures
        only_known_tags("<blockquote class=\"feed-quote\"><p>"@),
        only_known_tags("</p>"@),
        only_known_tags("<small>归档引用片段，可能不完整</small>"@),
        only_known_tags("<a class=\"feed-original\" href=\""@),
        only_known_tags("\" target=\"_blank\" rel=\"noopener\">原文</a>"@),
        only_known_tags("</blockquote>"@),
{
    reveal_strlit("<blockquote class=\"feed-quote\"><p>");
    reveal_strlit("<blockquote class=\"feed-quote\">");
    reveal_strlit("<p>");
    lemma_tag_at("<blockquote class=\"feed-quote\"><p>"@, 0, "<blockquote class=\"feed-quote\">"@);
    lemma_tag_at("<blockquote class=\"feed-quote\"><p>"@, 31, "<p>"@);
    reveal_strlit("</p>");
    lemma_tag_at("</p>"@, 0, "</p>"@);
    reveal_strlit("<small>归档引用片段，可能不完整</small>");
    reveal_strlit("<small>");
    reveal_strlit("</small>");
    lemma_tag_at("<small>归档引用片段，可能不完整</small>"@, 0, "<small>"@);
    lemma_tag_at("<small>归档引用片段，可能不完整</small>"@, 19, "</small>"@);
    reveal_strlit("<a class=\"feed-original\" href=\"");
    lemma_tag_at("<a class=\"feed-original\" href=\""@, 0, "<a class=\"feed-original\" href=\""@);
    reveal_strlit("\" target=\"_blank\" rel=\"noopener\">原文</a>");
    reveal_strlit("</a>");
    lemma_tag_at("\" target=\"_blank\" rel=\"noopener\">原文</a>"@, 35, "</a>"@);
    reveal_strlit("</blockquote>");
    lemma_tag_at("</blockquote>"@, 0, "</blockquote>"@);
}

/// Escaped text has no tags.
proof fn lemma_escaped_known(s: Seq<char>)
    ensures
        only_known_tags(html::escaped(s)),
{
    law_escaped_text_is_inert(s);
    lemma_inert_known(html::escaped(s));
}

/// Numerals have no tags.
proof fn lemma_decimal_known(n: nat)
    ensures
        only_known_tags(number::decimal(n)),
{
    number::lemma_decimal_round_trip(n);
    lemma_inert_known(number::decimal(n));
}

/// Percent-encoded text has no tags.
proof fn lemma_encoded_known(s: Seq<u8>)
    ensures
        only_known_tags(percent::encoded_bytes(s)),
    decreases s.len(),
{
    if s.len() > 0 {
        lemma_encoded_known(s.drop_last());
        lemma_inert_known(percent::encoded_byte(s.last()));
        lemma_known_concat(percent::encoded_bytes(s.drop_last()), percent::encoded_byte(s.last()));
    }
}

/// Joined texts without tags have none.
proof fn lemma_join_known(parts: Seq<Seq<char>>, separator: Seq<char>)
    requires
        only_known_tags(separator),
        forall|i: int| 0 <= i < parts.len() ==> only_known_tags(#[trigger] parts[i]),
    ensures
        only_known_tags(text::join(parts, separator)),
    decreases parts.len(),
{
    if parts.len() > 1 {
        let front = parts.drop_last();
        lemma_join_known(front, separator);
        lemma_known_concat(text::join(front, separator), separator);
        lemma_known_concat(text::join(front, separator) + separator, parts.last());
    }
}

/// A date as it is shown has no tags.
proof fn lemma_date_known(date: Seq<char>)
    ensures
        only_known_tags(note::shown_date(date)),
{
    let parts = text::split(date, '-').map_values(|part: Seq<char>| note::short_part(part));
    assert forall|i: int| 0 <= i < parts.len() implies only_known_tags(#[trigger] parts[i]) by {
        lemma_decimal_known(
            number::parsed_number(text::split(date, '-')[i], u32::MAX as nat)->0,
        );
    }
    reveal_strlit("/");
    lemma_inert_known("/"@);
    lemma_join_known(parts, "/"@);
}

/// A link or a piece of text has known tags alone.
proof fn lemma_link_known(url: Seq<char>, is_url: bool)
    ensures
        only_known_tags(html::link_html(url, is_url)),
{
    lemma_text_frames();
    lemma_escaped_known(url);
    let safe = html::escaped(url);
    lemma_known_five("<a href=\""@, safe, "\" target=\"_blank\" rel=\"noopener\">"@, safe, "</a>"@);
}

/// A text with links has known tags alone.
proof fn lemma_linked_known(s: Seq<char>)
    ensures
        only_known_tags(html::linked(s)),
    decreases s.len(),
{
    match html::link_start(s) {
        None => {
            lemma_escaped_known(s);
        },
        Some(i) => {
            html::lemma_leading_link(s);
            let url = html::leading_link(s.skip(i));
            let is_url = trusted::url_parsed(url) is Ok;
            lemma_escaped_known(s.take(i));
            lemma_link_known(url, is_url);
            lemma_linked_known(s.skip(i + url.len()));
            lemma_known_three(
                html::escaped(s.take(i)),
                html::link_html(url, is_url),
                html::linked(s.skip(i + url.len())),
            );
        },
    }
}

/// An emoji has known tags alone.
proof fn lemma_emoji_known(token: Seq<char>, url: Seq<char>)
    ensures
        only_known_tags(html::emoji_html(token, url)),
{
    lemma_text_frames();
    lemma_escaped_known(token);
    lemma_escaped_known(url);
    let src = html::escaped(url);
    let alt = html::escaped(token);
    lemma_known_five("<img class=\"weibo-emoji\" src=\""@, src, "\" alt=\""@, alt, "\" title=\""@);
    let s0 = "<img class=\"weibo-emoji\" src=\""@ + src + "\" alt=\""@ + alt + "\" title=\""@;
    lemma_known_three(
        s0,
        alt,
        "\" width=\"20\" height=\"20\" loading=\"lazy\" referrerpolicy=\"no-referrer\">"@,
    );
}

/// A Weibo text has known tags alone.
proof fn lemma_weibo_known(s: Seq<char>, emojis: JsonView)
    ensures
        only_known_tags(html::weibo(s, emojis)),
    decreases s.len(),
{
    text::lemma_index_of(s, '[');
    let i = text::index_of(s, '[');
    if i < s.len() {
        let rest = s.skip(i);
        let name = html::bracketed(rest);
        let front = html::linked(s.take(i));
        lemma_linked_known(s.take(i));
        text::lemma_index_of(rest, ']');
        if name is Some && html::emoji_url(emojis, name->0) is Some {
            let size = (name->0.len() + 2) as int;
            let url = html::emoji_url(emojis, name->0)->0;
            lemma_emoji_known(rest.take(size), url);
            lemma_weibo_known(rest.skip(size), emojis);
            lemma_known_three(
                front,
                html::emoji_html(rest.take(size), url),
                html::weibo(rest.skip(size), emojis),
            );
        } else {
            lemma_text_frames();
            lemma_weibo_known(rest.skip(1), emojis);
            lemma_known_three(front, "["@, html::weibo(rest.skip(1), emojis));
        }
    } else {
        lemma_linked_known(s);
    }
}

/// Whatever the text of a note holds, the HTML that it becomes has no tags but
/// those that notes are rendered with.
pub proof fn law_note_text_adds_no_tags(s: Seq<char>, source: Seq<char>, emojis: JsonView)
    ensures
        only_known_tags(html::social_html(s, source, emojis)),
{
    lemma_weibo_known(s, emojis);
    lemma_linked_known(s);
}

/// The link to where a note was first published has known tags alone.
proof fn lemma_original_known(url: Seq<char>, scheme: Option<Seq<char>>)
    ensures
        only_known_tags(html::original_html(url, scheme)),
{
    lemma_quote_frames();
    lemma_escaped_known(url);
    let href = html::escaped(url);
    lemma_known_three(
        "<a class=\"feed-original\" href=\""@,
        href,
        "\" target=\"_blank\" rel=\"noopener\">原文</a>"@,
    );
}

/// A quoted note has known tags alone.
proof fn lemma_quote_known(quote: JsonView, emojis: JsonView, nested: Seq<char>)
    requires
        only_known_tags(nested),
    ensures
        only_known_tags(html::quote_block(quote, emojis, nested)),
{
    lemma_quote_frames();
    let body = html::social_html(quote.text("text"@), quote.text("source"@), emojis);
    let url = quote.text("url"@);
    let original = html::original_html(url, html::url_scheme(url));
    let warning = if quote.flag("partial"@) {
        "<small>归档引用片段，可能不完整</small>"@
    } else {
        Seq::empty()
    };
    law_note_text_adds_no_tags(quote.text("text"@), quote.text("source"@), emojis);
    lemma_original_known(url, html::url_scheme(url));
    lemma_known_five("<blockquote class=\"feed-quote\"><p>"@, body, "</p>"@, warning, original);
    let s0 = "<blockquote class=\"feed-quote\"><p>"@ + body + "</p>"@ + warning + original;
    lemma_known_three(s0, nested, "</blockquote>"@);
}

/// Whatever quoted notes hold, the HTML that they become has no tags but those
/// that notes are rendered with.
pub proof fn law_quotes_add_no_tags(items: Seq<JsonView>, emojis: JsonView, depth: nat)
    ensures
        only_known_tags(html::quotes_as_html(items, emojis, depth)),
    decreases 33 - depth, items.len(),
{
    if depth <= 32 && items.len() > 0 {
        let quote = items.last();
        law_quotes_add_no_tags(items.drop_last(), emojis, depth);
        if !quote.flag("unavailable"@) {
            let inner = quote.get("quotes"@).elements();
            law_quotes_add_no_tags(inner, emojis, depth + 1);
            let nested = html::quotes_as_html(inner, emojis, depth + 1);
            lemma_quote_known(quote, emojis, nested);
            lemma_known_concat(
                html::quotes_as_html(items.drop_last(), emojis, depth),
                html::quote_block(quote, emojis, nested),
            );
        }
    }
}

/// The fixed parts of links to where notes were published have known tags alone.
proof fn lemma_label_frames()
    ensures
        only_known_tags("<a class=\"feed-origin\" href=\""@),
        only_known_tags("\" target=\"_blank\" rel=\"noopener\">X</a>"@),
        only_known_tags("<a href=\"https://github.com/wangzexi/blog/blob/main/"@),
        only_known_tags("/README.md\" target=\"_blank\" rel=\"noopener\">GitHub</a>"@),
{
    reveal_strlit("<a class=\"feed-origin\" href=\"");
    lemma_tag_at("<a class=\"feed-origin\" href=\""@, 0, "<a class=\"feed-origin\" href=\""@);
    reveal_strlit("\" target=\"_blank\" rel=\"noopener\">X</a>");
    reveal_strlit("</a>");
    lemma_tag_at("\" target=\"_blank\" rel=\"noopener\">X</a>"@, 34, "</a>"@);
    reveal_strlit("<a href=\"https://github.com/wangzexi/blog/blob/main/");
    reveal_strlit("<a href=\"");
    lemma_tag_at("<a href=\"https://github.com/wangzexi/blog/blob/main/"@, 0, "<a href=\""@);
    reveal_strlit("/README.md\" target=\"_blank\" rel=\"noopener\">GitHub</a>");
    reveal_strlit("</a>");
    lemma_tag_at("/README.md\" target=\"_blank\" rel=\"noopener\">GitHub</a>"@, 49, "</a>"@);
}

/// The fixed parts of videos have known tags alone.
proof fn lemma_video_frames()
    ensures
        only_known_tags(
            "<video class=\"feed-video\" controls playsinline preload=\"metadata\" aria-label=\"视频\" src=\""@,
        ),
        only_known_tags("\">浏览器无法播放此视频，<a href=\""@),
        only_known_tags("\">打开视频</a>。</video>"@),
        only_known_tags("<div class=\"feed-videos\">"@),
        only_known_tags("</div>"@),
        only_known_tags("<a class=\"feed-attachment\" href=\""@),
        only_known_tags("\" target=\"_blank\" rel=\"noopener\">查看视频附件 ↗</a>"@),
{
    reveal_strlit(
        "<video class=\"feed-video\" controls playsinline preload=\"metadata\" aria-label=\"视频\" src=\"",
    );
    reveal_strlit("<video class=\"feed-video\" ");
    lemma_tag_at(
        "<video class=\"feed-video\" controls playsinline preload=\"metadata\" aria-label=\"视频\" src=\""@,
        0,
        "<video class=\"feed-video\" "@,
    );
    reveal_strlit("\">浏览器无法播放此视频，<a href=\"");
    reveal_strlit("<a href=\"");
    lemma_tag_at("\">浏览器无法播放此视频，<a href=\""@, 13, "<a href=\""@);
    reveal_strlit("\">打开视频</a>。</video>");
    reveal_strlit("</a>");
    reveal_strlit("</video>");
    lemma_tag_at("\">打开视频</a>。</video>"@, 6, "</a>"@);
    lemma_tag_at("\">打开视频</a>。</video>"@, 11, "</video>"@);
    reveal_strlit("<div class=\"feed-videos\">");
    reveal_strlit("<div class=\"feed-");
    lemma_tag_at("<div class=\"feed-videos\">"@, 0, "<div class=\"feed-"@);
    reveal_strlit("</div>");
    lemma_tag_at("</div>"@, 0, "</div>"@);
    reveal_strlit("<a class=\"feed-attachment\" href=\"");
    lemma_tag_at(
        "<a class=\"feed-attachment\" href=\""@,
        0,
        "<a class=\"feed-attachment\" href=\""@,
    );
    reveal_strlit("\" target=\"_blank\" rel=\"noopener\">查看视频附件 ↗</a>");
    reveal_strlit("</a>");
    lemma_tag_at("\" target=\"_blank\" rel=\"noopener\">查看视频附件 ↗</a>"@, 41, "</a>"@);
}

/// The fixed parts of pictures have known tags alone.
proof fn lemma_image_frames()
    ensures
        only_known_tags("<a href=\""@),
        only_known_tags("\" class=\"feed-image\" aria-label=\"放大第 "@),
        only_known_tags(" 张配图\"><img src=\""@),
        only_known_tags("\" alt=\"配图 "@),
        only_known_tags("\" loading=\"lazy\" width=\"160\" height=\"160\" /></a>"@),
        only_known_tags("<div class=\"feed-images\">"@),
        only_known_tags("</div>"@),
{
    reveal_strlit("<a href=\"");
    lemma_tag_at("<a href=\""@, 0, "<a href=\""@);
    reveal_strlit("\" class=\"feed-image\" aria-label=\"放大第 ");
    reveal_strlit(" 张配图\"><img src=\"");
    reveal_strlit("<img src=\"");
    lemma_tag_at(" 张配图\"><img src=\""@, 6, "<img src=\""@);
    reveal_strlit("\" alt=\"配图 ");
    reveal_strlit("\" loading=\"lazy\" width=\"160\" height=\"160\" /></a>");
    reveal_strlit("</a>");
    lemma_tag_at("\" loading=\"lazy\" width=\"160\" height=\"160\" /></a>"@, 44, "</a>"@);
    reveal_strlit("<div class=\"feed-images\">");
    reveal_strlit("<div class=\"feed-");
    lemma_tag_at("<div class=\"feed-images\">"@, 0, "<div class=\"feed-"@);
    reveal_strlit("</div>");
    lemma_tag_at("</div>"@, 0, "</div>"@);
}

/// The fixed parts of a note before its body have known tags alone.
proof fn lemma_head_frames()
    ensures
        only_known_tags("<article class=\"feed-item\" id=\""@),
        only_known_tags("\"><div class=\"feed-item__meta\">"@),
        only_known_tags("<time datetime=\""@),
        only_known_tags("\">"@),
        only_known_tags("</time></div>"@),
        only_known_tags("<h3>"@),
        only_known_tags("</h3>"@),
        only_known_tags("<div id=\"body-"@),
        only_known_tags("\" class=\"feed-body"@),
        only_known_tags(" markdown-section"@),
        only_known_tags("\" data-collapsed=\"true\">"@),
{
    reveal_strlit("<article class=\"feed-item\" id=\"");
    lemma_tag_at("<article class=\"feed-item\" id=\""@, 0, "<article class=\"feed-item\" id=\""@);
    reveal_strlit("\"><div class=\"feed-item__meta\">");
    reveal_strlit("<div class=\"feed-");
    lemma_tag_at("\"><div class=\"feed-item__meta\">"@, 2, "<div class=\"feed-"@);
    reveal_strlit("<time datetime=\"");
    lemma_tag_at("<time datetime=\""@, 0, "<time datetime=\""@);
    reveal_strlit("\">");
    reveal_strlit("</time></div>");
    reveal_strlit("</time>");
    reveal_strlit("</div>");
    lemma_tag_at("</time></div>"@, 0, "</time>"@);
    lemma_tag_at("</time></div>"@, 7, "</div>"@);
    reveal_strlit("<h3>");
    lemma_tag_at("<h3>"@, 0, "<h3>"@);
    reveal_strlit("</h3>");
    lemma_tag_at("</h3>"@, 0, "</h3>"@);
    reveal_strlit("<div id=\"body-");
    lemma_tag_at("<div id=\"body-"@, 0, "<div id=\"body-"@);
    reveal_strlit("\" class=\"feed-body");
    reveal_strlit(" markdown-section");
    reveal_strlit("\" data-collapsed=\"true\">");
}

/// The fixed parts of a note around and behind its body have known tags alone.
proof fn lemma_foot_frames()
    ensures
        only_known_tags("<p>"@),
        only_known_tags("</p>"@),
        only_known_tags(
            "</div><button class=\"feed-expand\" type=\"button\" aria-expanded=\"false\" aria-controls=\"body-"@,
        ),
        only_known_tags("\" hidden>展开</button>"@),
        only_known_tags("</article>"@),
{
    reveal_strlit("<p>");
    lemma_tag_at("<p>"@, 0, "<p>"@);
    reveal_strlit("</p>");
    lemma_tag_at("</p>"@, 0, "</p>"@);
    reveal_strlit(
        "</div><button class=\"feed-expand\" type=\"button\" aria-expanded=\"false\" aria-controls=\"body-",
    );
    reveal_strlit("</div>");
    reveal_strlit("<button class=\"feed-expand\" type=\"button\" ");
    lemma_tag_at(
        "</div><button class=\"feed-expand\" type=\"button\" aria-expanded=\"false\" aria-controls=\"body-"@,
        0,
        "</div>"@,
    );
    lemma_tag_at(
        "</div><button class=\"feed-expand\" type=\"button\" aria-expanded=\"false\" aria-controls=\"body-"@,
        6,
        "<button class=\"feed-expand\" type=\"button\" "@,
    );
    reveal_strlit("\" hidden>展开</button>");
    reveal_strlit("</button>");
    lemma_tag_at("\" hidden>展开</button>"@, 11, "</button>"@);
    reveal_strlit("</article>");
    lemma_tag_at("</article>"@, 0, "</article>"@);
}

/// The link to a note on X has known tags alone.
proof fn lemma_x_label_known(url: Option<UrlView>)
    ensures
        only_known_tags(note::x_label(url)),
{
    lemma_label_frames();
    if let Some(parts) = url {
        let href = html::escaped(parts.text);
        lemma_escaped_known(parts.text);
        lemma_known_three(
            "<a class=\"feed-origin\" href=\""@,
            href,
            "\" target=\"_blank\" rel=\"noopener\">X</a>"@,
        );
    }
}

/// The link to an article in the repository of the blog has known tags alone.
proof fn lemma_blog_label_known(id: Seq<char>)
    ensures
        only_known_tags(note::blog_label(id)),
{
    lemma_label_frames();
    let slug = percent::encoded_component(note::article_name(id));
    lemma_encoded_known(utf8::encode_utf8(note::article_name(id)));
    lemma_known_three(
        "<a href=\"https://github.com/wangzexi/blog/blob/main/"@,
        slug,
        "/README.md\" target=\"_blank\" rel=\"noopener\">GitHub</a>"@,
    );
}

/// The links to where a note was published have known tags alone.
proof fn lemma_labels_known(item: JsonView, origins: Seq<JsonView>)
    ensures
        only_known_tags(note::origin_labels(item, origins)),
    decreases origins.len(),
{
    if origins.len() > 0 {
        let origin = origins.last();
        lemma_labels_known(item, origins.drop_last());
        lemma_blog_label_known(item.text("id"@));
        lemma_x_label_known(note::as_url(origin.text("url"@)));
        lemma_known_concat(
            note::origin_labels(item, origins.drop_last()),
            note::origin_label(item, origin),
        );
    }
}

/// A video has known tags alone.
proof fn lemma_video_known(path: Seq<char>)
    ensures
        only_known_tags(note::video_html(path)),
{
    lemma_video_frames();
    lemma_escaped_known(path);
    let src = html::escaped(path);
    lemma_known_five(
        "<video class=\"feed-video\" controls playsinline preload=\"metadata\" aria-label=\"视频\" src=\""@,
        src,
        "\">浏览器无法播放此视频，<a href=\""@,
        src,
        "\">打开视频</a>。</video>"@,
    );
}

/// Videos have known tags alone.
proof fn lemma_videos_known(items: Seq<JsonView>)
    ensures
        only_known_tags(note::video_list_html(items)),
    decreases items.len(),
{
    if items.len() > 0 {
        let front = note::video_list_html(items.drop_last());
        lemma_videos_known(items.drop_last());
        if let JsonView::Text(path) = items.last() {
            lemma_video_known(path);
            lemma_known_concat(front, note::video_html(path));
        }
        lemma_known_concat(front, Seq::empty());
    }
}

/// The videos of a note, and the link to one that is not in the store, have known
/// tags alone.
proof fn lemma_item_videos_known(item: JsonView)
    ensures
        only_known_tags(note::videos_html(item)),
        only_known_tags(note::video_link_html(item)),
{
    lemma_video_frames();
    let list = note::video_list_html(item.get("videos"@).elements());
    lemma_videos_known(item.get("videos"@).elements());
    lemma_known_three("<div class=\"feed-videos\">"@, list, "</div>"@);
    let url = html::escaped(item.text("url"@));
    lemma_escaped_known(item.text("url"@));
    lemma_known_three(
        "<a class=\"feed-attachment\" href=\""@,
        url,
        "\" target=\"_blank\" rel=\"noopener\">查看视频附件 ↗</a>"@,
    );
}

/// A picture has known tags alone.
proof fn lemma_image_known(path: Seq<char>, n: nat)
    ensures
        only_known_tags(note::image_html(path, n)),
{
    lemma_image_frames();
    lemma_escaped_known(path);
    lemma_decimal_known(n);
    let src = html::escaped(path);
    let numeral = number::decimal(n);
    lemma_known_five(
        "<a href=\""@,
        src,
        "\" class=\"feed-image\" aria-label=\"放大第 "@,
        numeral,
        " 张配图\"><img src=\""@,
    );
    let s0 = "<a href=\""@
        + src
        + "\" class=\"feed-image\" aria-label=\"放大第 "@
        + numeral
        + " 张配图\"><img src=\""@;
    lemma_known_five(
        s0,
        src,
        "\" alt=\"配图 "@,
        numeral,
        "\" loading=\"lazy\" width=\"160\" height=\"160\" /></a>"@,
    );
}

/// Pictures have known tags alone.
proof fn lemma_image_list_known(paths: Seq<Seq<char>>)
    ensures
        only_known_tags(note::image_list_html(paths)),
    decreases paths.len(),
{
    if paths.len() > 0 {
        lemma_image_list_known(paths.drop_last());
        lemma_image_known(paths.last(), paths.len());
        lemma_known_concat(
            note::image_list_html(paths.drop_last()),
            note::image_html(paths.last(), paths.len()),
        );
    }
}

/// The pictures of a note have known tags alone.
proof fn lemma_images_known(paths: Seq<Seq<char>>)
    ensures
        only_known_tags(note::images_html(paths)),
{
    lemma_image_frames();
    lemma_image_list_known(paths);
    let list = note::image_list_html(paths);
    lemma_known_three("<div class=\"feed-images\">"@, list, "</div>"@);
}

/// What stands before the body of a note has known tags alone.
proof fn lemma_head_known(item: JsonView, date: Seq<char>)
    ensures
        only_known_tags(note::note_head(item, date)),
{
    lemma_head_frames();
    let id = html::escaped(item.text("id"@));
    let labels = note::origin_labels(item, note::origins_of(item));
    let time = html::escaped(item.text("publishedAt"@));
    let shown = note::shown_date(date);
    let title = html::escaped(item.text("title"@));
    let heading = note::note_heading(item);
    let class = note::note_class(item);
    lemma_escaped_known(item.text("id"@));
    lemma_escaped_known(item.text("publishedAt"@));
    lemma_escaped_known(item.text("title"@));
    lemma_labels_known(item, note::origins_of(item));
    lemma_date_known(date);
    lemma_known_three("<h3>"@, title, "</h3>"@);
    assert(only_known_tags(heading));
    assert(only_known_tags(class));
    lemma_known_five(
        "<article class=\"feed-item\" id=\""@,
        id,
        "\"><div class=\"feed-item__meta\">"@,
        labels,
        "<time datetime=\""@,
    );
    let s0 = "<article class=\"feed-item\" id=\""@
        + id
        + "\"><div class=\"feed-item__meta\">"@
        + labels
        + "<time datetime=\""@;
    lemma_known_five(s0, time, "\">"@, shown, "</time></div>"@);
    let s1 = s0 + time + "\">"@ + shown + "</time></div>"@;
    lemma_known_five(s1, heading, "<div id=\"body-"@, id, "\" class=\"feed-body"@);
    let s2 = s1 + heading + "<div id=\"body-"@ + id + "\" class=\"feed-body"@;
    lemma_known_three(s2, class, "\" data-collapsed=\"true\">"@);
}

/// What stands behind the body of a note has known tags alone.
proof fn lemma_foot_known(item: JsonView, emojis: JsonView)
    ensures
        only_known_tags(note::note_foot(item, emojis)),
{
    lemma_foot_frames();
    let id = html::escaped(item.text("id"@));
    let quotes = html::quotes_as_html(item.get("quotes"@).elements(), emojis, 0);
    let link = note::video_link_html(item);
    let images = note::images_html(note::image_paths(item.get("images"@).elements()));
    let videos = note::videos_html(item);
    lemma_escaped_known(item.text("id"@));
    law_quotes_add_no_tags(item.get("quotes"@).elements(), emojis, 0);
    lemma_item_videos_known(item);
    lemma_images_known(note::image_paths(item.get("images"@).elements()));
    lemma_known_five(
        quotes,
        link,
        "</div><button class=\"feed-expand\" type=\"button\" aria-expanded=\"false\" aria-controls=\"body-"@,
        id,
        "\" hidden>展开</button>"@,
    );
    let s0 = quotes
        + link
        + "</div><button class=\"feed-expand\" type=\"button\" aria-expanded=\"false\" aria-controls=\"body-"@
        + id
        + "\" hidden>展开</button>"@;
    lemma_known_three(s0, images, videos);
    let s1 = s0 + images + videos;
    lemma_known_concat(s1, "</article>"@);
}

/// Whatever a note holds, its HTML has no tags but those that notes are rendered
/// with. In an article that holds of everything around its body, which is
/// Markdown without raw HTML and is sanitised by itself.
pub proof fn law_notes_add_no_tags(item: JsonView, emojis: JsonView, date: Seq<char>)
    ensures
        only_known_tags(note::note_head(item, date)),
        only_known_tags(note::note_foot(item, emojis)),
        !note::is_article(item) ==> only_known_tags(note::item_html(item, emojis, date)),
{
    let head = note::note_head(item, date);
    let body = note::body_html(item, emojis);
    let foot = note::note_foot(item, emojis);
    lemma_head_known(item, date);
    lemma_foot_known(item, emojis);
    if !note::is_article(item) {
        lemma_foot_frames();
        let content = note::note_content(item.text("text"@), item.flag("hasVideo"@));
        let inner = html::social_html(content, item.text("source"@), emojis);
        law_note_text_adds_no_tags(content, item.text("source"@), emojis);
        lemma_known_three("<p>"@, inner, "</p>"@);
        lemma_known_three(head, body, foot);
    }
}

} // verus!
