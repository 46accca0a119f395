//! What stands around the body of a note on the page, and what is seen of the whole
//! note.
use vstd::prelude::*;
use vstd::utf8;

use crate::contents;
use crate::html;
use crate::json::JsonView;
use crate::note;
use crate::number;
use crate::percent;
use crate::quotes;
use crate::reading;
use crate::safety;
use crate::text;
use crate::trusted;
use crate::trusted::UrlView;

verus! {

/// A link with an address: a tag that carries it, a text and the end.
pub open spec fn is_link(s: Seq<char>, href: Seq<char>, shown: Seq<char>) -> bool {
    &&& reading::is_closed(s)
    &&& reading::visible(s) == shown
    &&& reading::tags(s).len() == 2
    &&& reading::attribute(reading::tags(s)[0], "href"@) == Some(href)
    &&& reading::tags(s)[1] == "</a>"@
}

/// A link that is put together of its tag, its text and its end.
proof fn lemma_link(
    front: Seq<char>,
    href: Seq<char>,
    back: Seq<char>,
    shown: Seq<char>,
    all: Seq<char>,
)
    requires
        all == front + href + back + shown + "</a>"@,
        front.len() > 2,
        front[0] == '<',
        front[1] != 'i',
        back.len() > 1,
        back.last() == '>',
        safety::is_inert(href),
        forall|i: int| 0 <= i < front.len() ==> #[trigger] front[i] != '>',
        forall|i: int| 0 <= i < back.len() - 1 ==> #[trigger] back[i] != '>',
        forall|i: int| 0 <= i < shown.len() ==> #[trigger] shown[i] != '<',
        reading::attribute(front + href + back, "href"@) == Some(href),
    ensures
        is_link(all, href, shown),
{
    reveal_strlit("</a>");
    let tag = front + href + back;
    reading::lemma_valued_tag(front, href, back);
    reading::lemma_text_is_closed(shown);
    reading::lemma_plain_tag("</a>"@);
    reading::lemma_closed_three(tag, shown, "</a>"@);
    assert(reading::visible(all) =~= shown);
    assert(reading::tags(all) =~= seq![tag, "</a>"@]);
}

/// A note on X is linked where its address is one of that site, and nowhere else. The
/// address is the URL in its serialised form.
pub proof fn law_notes_on_x_are_linked(url: Option<UrlView>)
    ensures
        ({
            let on_x = url is Some && url->0.scheme == "https"@ && (url->0.host == Some("x.com"@)
                || url->0.host == Some("www.x.com"@));
            &&& !on_x ==> note::x_label(url) == Seq::<char>::empty()
            &&& on_x ==> is_link(note::x_label(url), html::escaped(url->0.text), "X"@)
        }),
{
    reveal_strlit("<a class=\"feed-origin\" href=\"");
    if note::x_label(url).len() > 0 {
        let href = html::escaped(url->0.text);
        safety::law_escaped_text_is_inert(url->0.text);
        reveal_strlit("<a class=");
        reveal_strlit("feed-origin");
        reveal_strlit(" href=");
        reveal_strlit("\" target=\"_blank\" rel=\"noopener\">X</a>");
        reveal_strlit("\" target=\"_blank\" rel=\"noopener\">");
        reveal_strlit(" target=\"_blank\" rel=\"noopener\">");
        reveal_strlit("X");
        reveal_strlit("</a>");
        reveal_strlit("href");
        let q = seq!['"'];
        let a = "<a class=\"feed-origin\" href=\""@;
        let b = "\" target=\"_blank\" rel=\"noopener\">"@;
        let last = " target=\"_blank\" rel=\"noopener\">"@;
        assert("\" target=\"_blank\" rel=\"noopener\">X</a>"@ =~= b + "X"@ + "</a>"@);
        assert(note::x_label(url) =~= a + href + b + "X"@ + "</a>"@);
        assert(a =~= "<a class="@ + q + "feed-origin"@ + q + " href="@ + q);
        assert(b =~= q + last);
        let r = reading::with_value(" href="@, href, last);
        assert(a + href + b =~= reading::with_value("<a class="@, "feed-origin"@, r));
        assert(" href="@.skip(0) =~= seq![' '] + "href"@ + seq!['=']);
        reading::lemma_attribute_step("<a class="@, "feed-origin"@, r, "href"@);
        reading::lemma_other_name("<a class="@, "href"@, 1);
        reading::lemma_attribute_step(" href="@, href, last, "href"@);
        lemma_link(a, href, b, "X"@, note::x_label(url));
    }
}

/// Percent-encoded text has no character that means something in HTML but the
/// apostrophe, which closes nothing here.
proof fn lemma_encoded_is_plain(s: Seq<u8>)
    ensures
        forall|i: int|
            0 <= i < percent::encoded_bytes(s).len() ==> #[trigger] percent::encoded_bytes(s)[i]
                != '<' && percent::encoded_bytes(s)[i] != '>' && percent::encoded_bytes(s)[i]
                != '"',
    decreases s.len(),
{
    if s.len() > 0 {
        lemma_encoded_is_plain(s.drop_last());
        let front = percent::encoded_bytes(s.drop_last());
        let last = percent::encoded_byte(s.last());
        let all = percent::encoded_bytes(s);
        assert forall|i: int| 0 <= i < all.len() implies #[trigger] all[i] != '<' && all[i] != '>'
            && all[i] != '"' by {
            if i < front.len() {
                assert(all[i] == front[i]);
            } else {
                assert(all[i] == last[i - front.len()]);
            }
        }
    }
}

/// An article links to its source in the repository of the blog, under its name: its
/// id without the mark of its source.
pub proof fn law_articles_link_to_their_source(name: Seq<char>)
    requires
        !text::starts_with(name, "GitHub blog:"@),
    ensures
        note::article_name("GitHub blog:"@ + name) == name,
        note::article_name(name) == name,
        is_link(
            note::blog_label("GitHub blog:"@ + name),
            "https://github.com/wangzexi/blog/blob/main/"@ + percent::encoded_component(name)
                + "/README.md"@,
            "GitHub"@,
        ),
        note::blog_label(name) == note::blog_label("GitHub blog:"@ + name),
{
    reveal_strlit("GitHub blog:");
    text::law_prefixes_go_from_the_front(name, "GitHub blog:"@);
    let slug = percent::encoded_component(name);
    lemma_encoded_is_plain(utf8::encode_utf8(name));
    reveal_strlit("<a href=\"https://github.com/wangzexi/blog/blob/main/");
    reveal_strlit("https://github.com/wangzexi/blog/blob/main/");
    reveal_strlit("<a href=");
    reveal_strlit("<a href=\"");
    reveal_strlit("/README.md\" target=\"_blank\" rel=\"noopener\">GitHub</a>");
    reveal_strlit("/README.md");
    reveal_strlit("\" target=\"_blank\" rel=\"noopener\">");
    reveal_strlit(" target=\"_blank\" rel=\"noopener\">");
    reveal_strlit("GitHub");
    reveal_strlit("</a>");
    reveal_strlit("href");
    let q = seq!['"'];
    let open = "<a href=\""@;
    let base = "https://github.com/wangzexi/blog/blob/main/"@;
    let file = "/README.md"@;
    let href = base + slug + file;
    let b = "\" target=\"_blank\" rel=\"noopener\">"@;
    let last = " target=\"_blank\" rel=\"noopener\">"@;
    assert("<a href=\"https://github.com/wangzexi/blog/blob/main/"@ =~= open + base);
    assert("/README.md\" target=\"_blank\" rel=\"noopener\">GitHub</a>"@ =~= file + b + "GitHub"@
        + "</a>"@);
    assert(open =~= "<a href="@ + q);
    assert(b =~= q + last);
    let tag = open + href + b;
    let all = note::blog_label("GitHub blog:"@ + name);
    assert(all =~= tag + "GitHub"@ + "</a>"@);
    assert(tag =~= reading::with_value("<a href="@, href, last));
    assert forall|i: int| 0 <= i < href.len() implies #[trigger] href[i] != '<' && href[i] != '>'
        && href[i] != '"' by {
        if i < base.len() {
            assert(href[i] == base[i]);
        } else if i < base.len() + slug.len() {
            assert(href[i] == slug[i - base.len()]);
        } else {
            assert(href[i] == file[i - base.len() - slug.len()]);
        }
    }
    assert("<a href="@.skip(2) =~= seq![' '] + "href"@ + seq!['=']);
    reading::lemma_attribute_step("<a href="@, href, last, "href"@);
    reading::lemma_valued_tag(open, href, b);
    reading::lemma_text_is_closed("GitHub"@);
    reading::lemma_plain_tag("</a>"@);
    reading::lemma_closed_three(tag, "GitHub"@, "</a>"@);
    assert(reading::visible(all) =~= "GitHub"@);
    assert(reading::tags(all) =~= seq![tag, "</a>"@]);
}

/// The links to the places where a note was published stand one after another, and
/// each place has its own: the blog for its articles, X for what has an address
/// there, and any other none. A note that lists no places is its own.
pub proof fn law_places_are_linked_in_a_row(
    item: JsonView,
    a: Seq<JsonView>,
    b: Seq<JsonView>,
    origin: JsonView,
)
    ensures
        note::origin_labels(item, a + b) == note::origin_labels(item, a) + note::origin_labels(
            item,
            b,
        ),
        note::origin_labels(item, Seq::empty()) == Seq::<char>::empty(),
        note::origin_labels(item, seq![origin]) == if origin.text("source"@) == "GitHub blog"@
            && item.text("source"@) == "GitHub blog"@ {
            note::blog_label(item.text("id"@))
        } else if origin.text("source"@) == "X"@ {
            match trusted::url_parsed(origin.text("url"@)) {
                Ok(url) => note::x_label(Some(url)),
                Err(_) => Seq::empty(),
            }
        } else {
            Seq::empty()
        },
        item.get("origins"@) is List ==> note::origins_of(item) == item.get("origins"@)->List_0,
        !(item.get("origins"@) is List) ==> note::origins_of(item) == seq![item],
    decreases b.len(),
{
    let none = Seq::<char>::empty();
    if b.len() == 0 {
        assert(a + b =~= a);
        assert(note::origin_labels(item, a) + none =~= note::origin_labels(item, a));
    } else {
        let front = b.drop_last();
        assert((a + b).drop_last() =~= a + front);
        law_places_are_linked_in_a_row(item, a, front, origin);
        let x = note::origin_labels(item, a);
        let y = note::origin_labels(item, front);
        let z = note::origin_label(item, b.last());
        assert(x + y + z =~= x + (y + z));
    }
    assert(seq![origin].drop_last() =~= Seq::<JsonView>::empty());
    assert(note::origin_labels(item, seq![origin].drop_last()) == none);
    assert(none + note::origin_label(item, origin) =~= note::origin_label(item, origin));
}

/// The links to where a note was published are closed.
proof fn lemma_labels_are_closed(item: JsonView, origins: Seq<JsonView>)
    ensures
        reading::is_closed(note::origin_labels(item, origins)),
    decreases origins.len(),
{
    if origins.len() == 0 {
        reading::lemma_nothing_is_closed();
    } else {
        let origin = origins.last();
        let front = note::origin_labels(item, origins.drop_last());
        lemma_labels_are_closed(item, origins.drop_last());
        lemma_blog_label_is_closed(item.text("id"@));
        let url = note::as_url(origin.text("url"@));
        law_notes_on_x_are_linked(url);
        reading::lemma_nothing_is_closed();
        reading::lemma_closed_concat(front, note::origin_label(item, origin));
    }
}

/// Prefixes that are taken away leave none.
proof fn lemma_no_prefix_left(s: Seq<char>, p: Seq<char>)
    requires
        p.len() > 0,
    ensures
        !text::starts_with(text::trim_prefixes(s, p), p),
    decreases s.len(),
{
    if text::starts_with(s, p) {
        lemma_no_prefix_left(s.skip(p.len() as int), p);
    }
}

proof fn lemma_blog_label_is_closed(id: Seq<char>)
    ensures
        reading::is_closed(note::blog_label(id)),
{
    reveal_strlit("GitHub blog:");
    let name = note::article_name(id);
    lemma_no_prefix_left(id, "GitHub blog:"@);
    law_articles_link_to_their_source(name);
    assert(note::blog_label(id) == note::blog_label(name));
}

/// The link to a video that is not in the store is shown exactly where none of its
/// videos is, the note says that it has one, and its address is on Weibo.
pub proof fn law_missing_videos_are_linked(item: JsonView)
    ensures
        ({
            let videos = item.get("videos"@).elements().filter(
                |v: JsonView| contents::is_stored_video(v),
            );
            let linked = videos.len() == 0 && item.get("hasVideo"@) == JsonView::Bool(true)
                && text::starts_with(item.text("url"@), "https://weibo.com/"@);
            &&& reading::is_closed(note::video_link_html(item))
            &&& !linked ==> note::video_link_html(item) == Seq::<char>::empty()
            &&& linked ==> is_link(
                note::video_link_html(item),
                html::escaped(item.text("url"@)),
                "查看视频附件 ↗"@,
            )
        }),
{
    contents::law_videos_are_shown_in_order(item);
    reveal_strlit("<a class=\"feed-attachment\" href=\"");
    if note::video_link_html(item).len() == 0 {
        reading::lemma_nothing_is_closed();
        assert(note::video_link_html(item) =~= Seq::<char>::empty());
    } else {
        let href = html::escaped(item.text("url"@));
        safety::law_escaped_text_is_inert(item.text("url"@));
        reveal_strlit("<a class=");
        reveal_strlit("feed-attachment");
        reveal_strlit(" href=");
        reveal_strlit("\" target=\"_blank\" rel=\"noopener\">查看视频附件 ↗</a>");
        reveal_strlit("\" target=\"_blank\" rel=\"noopener\">");
        reveal_strlit(" target=\"_blank\" rel=\"noopener\">");
        reveal_strlit("查看视频附件 ↗");
        reveal_strlit("</a>");
        reveal_strlit("href");
        let q = seq!['"'];
        let a = "<a class=\"feed-attachment\" href=\""@;
        let b = "\" target=\"_blank\" rel=\"noopener\">"@;
        let last = " target=\"_blank\" rel=\"noopener\">"@;
        let shown = "查看视频附件 ↗"@;
        assert("\" target=\"_blank\" rel=\"noopener\">查看视频附件 ↗</a>"@ =~= b + shown + "</a>"@);
        assert(note::video_link_html(item) =~= a + href + b + shown + "</a>"@);
        assert(a =~= "<a class="@ + q + "feed-attachment"@ + q + " href="@ + q);
        assert(b =~= q + last);
        let r = reading::with_value(" href="@, href, last);
        assert(a + href + b =~= reading::with_value("<a class="@, "feed-attachment"@, r));
        assert(" href="@.skip(0) =~= seq![' '] + "href"@ + seq!['=']);
        reading::lemma_attribute_step("<a class="@, "feed-attachment"@, r, "href"@);
        reading::lemma_other_name("<a class="@, "href"@, 1);
        reading::lemma_attribute_step(" href="@, href, last, "href"@);
        lemma_link(a, href, b, shown, note::video_link_html(item));
    }
}

/// Joined texts without tags have none.
proof fn lemma_joined_is_plain(parts: Seq<Seq<char>>, separator: Seq<char>)
    requires
        forall|i: int| 0 <= i < separator.len() ==> #[trigger] separator[i] != '<',
        forall|i: int, j: int|
            0 <= i < parts.len() && 0 <= j < parts[i].len() ==> #[trigger] parts[i][j] != '<',
    ensures
        forall|j: int|
            0 <= j < text::join(parts, separator).len() ==> #[trigger] text::join(
                parts,
                separator,
            )[j] != '<',
    decreases parts.len(),
{
    if parts.len() > 1 {
        let front = parts.drop_last();
        assert forall|i: int, j: int| 0 <= i < front.len() && 0 <= j < front[i].len() implies
            #[trigger] front[i][j] != '<' by {
            assert(front[i][j] == parts[i][j]);
        }
        lemma_joined_is_plain(front, separator);
        let before = text::join(front, separator);
        let all = text::join(parts, separator);
        assert forall|j: int| 0 <= j < all.len() implies #[trigger] all[j] != '<' by {
            if j < before.len() {
                assert(all[j] == before[j]);
            } else if j < before.len() + separator.len() {
                assert(all[j] == separator[j - before.len()]);
            } else {
                let k = j - before.len() - separator.len();
                assert(all[j] == parts[parts.len() - 1][k]);
            }
        }
    } else if parts.len() == 1 {
        assert forall|j: int| 0 <= j < parts[0].len() implies #[trigger] text::join(
            parts,
            separator,
        )[j] != '<' by {
            assert(parts[0][j] != '<');
        }
    }
}

/// A date as it is shown is text.
proof fn lemma_date_is_plain(date: Seq<char>)
    ensures
        forall|j: int|
            0 <= j < note::shown_date(date).len() ==> #[trigger] note::shown_date(date)[j] != '<',
{
    let parts = text::split(date, '-').map_values(|part: Seq<char>| note::short_part(part));
    reveal_strlit("/");
    assert forall|i: int, j: int| 0 <= i < parts.len() && 0 <= j < parts[i].len() implies
        #[trigger] parts[i][j] != '<' by {
        let n = number::parsed_number(text::split(date, '-')[i], u32::MAX as nat)->0;
        number::lemma_decimal_round_trip(n);
        assert(parts[i] == number::decimal(n));
        assert('0' <= parts[i][j] <= '9');
    }
    lemma_joined_is_plain(parts, "/"@);
}

/// The tag that opens a note.
spec fn article_tag(id: Seq<char>) -> Seq<char> {
    "<article class=\"feed-item\" id=\""@ + html::escaped(id) + "\">"@
}

proof fn lemma_article_tag(id: Seq<char>)
    ensures
        reading::is_closed(article_tag(id)),
        reading::visible(article_tag(id)) == Seq::<char>::empty(),
        reading::tags(article_tag(id)) == seq![article_tag(id)],
        reading::attribute(article_tag(id), "id"@) == Some(html::escaped(id)),
{
    let value = html::escaped(id);
    safety::law_escaped_text_is_inert(id);
    reveal_strlit("<article class=\"feed-item\" id=\"");
    reveal_strlit("<article class=");
    reveal_strlit("feed-item");
    reveal_strlit(" id=");
    reveal_strlit("\">");
    reveal_strlit(">");
    reveal_strlit("id");
    let q = seq!['"'];
    let a = "<article class=\"feed-item\" id=\""@;
    assert(a =~= "<article class="@ + q + "feed-item"@ + q + " id="@ + q);
    assert("\">"@ =~= q + ">"@);
    let r = reading::with_value(" id="@, value, ">"@);
    assert(article_tag(id) =~= reading::with_value("<article class="@, "feed-item"@, r));
    assert(" id="@.skip(0) =~= seq![' '] + "id"@ + seq!['=']);
    reading::lemma_attribute_step("<article class="@, "feed-item"@, r, "id"@);
    reading::lemma_other_name("<article class="@, "id"@, 1);
    reading::lemma_attribute_step(" id="@, value, ">"@, "id"@);
    reading::lemma_valued_tag(a, value, "\">"@);
}

/// The tag of the time of a note.
spec fn time_tag(time: Seq<char>) -> Seq<char> {
    "<time datetime=\""@ + html::escaped(time) + "\">"@
}

proof fn lemma_time_tag(time: Seq<char>)
    ensures
        reading::is_closed(time_tag(time)),
        reading::visible(time_tag(time)) == Seq::<char>::empty(),
        reading::tags(time_tag(time)) == seq![time_tag(time)],
        reading::attribute(time_tag(time), "datetime"@) == Some(html::escaped(time)),
{
    let value = html::escaped(time);
    safety::law_escaped_text_is_inert(time);
    reveal_strlit("<time datetime=\"");
    reveal_strlit("<time datetime=");
    reveal_strlit("\">");
    reveal_strlit(">");
    reveal_strlit("datetime");
    let q = seq!['"'];
    assert("<time datetime=\""@ =~= "<time datetime="@ + q);
    assert("\">"@ =~= q + ">"@);
    assert(time_tag(time) =~= reading::with_value("<time datetime="@, value, ">"@));
    assert("<time datetime="@.skip(5) =~= seq![' '] + "datetime"@ + seq!['=']);
    reading::lemma_attribute_step("<time datetime="@, value, ">"@, "datetime"@);
    reading::lemma_valued_tag("<time datetime=\""@, value, "\">"@);
}

/// The tag that opens the body of a note.
spec fn body_tag(item: JsonView) -> Seq<char> {
    "<div id=\"body-"@ + html::escaped(item.text("id"@)) + "\" class=\"feed-body"@
        + note::note_class(item) + "\" data-collapsed=\"true\">"@
}

proof fn lemma_body_tag(item: JsonView)
    ensures
        reading::is_closed(body_tag(item)),
        reading::visible(body_tag(item)) == Seq::<char>::empty(),
        reading::tags(body_tag(item)) == seq![body_tag(item)],
        reading::attribute(body_tag(item), "id"@) == Some(
            "body-"@ + html::escaped(item.text("id"@)),
        ),
        reading::attribute(body_tag(item), "class"@) == Some(
            if item.text("source"@) == "GitHub blog"@ {
                "feed-body markdown-section"@
            } else {
                "feed-body"@
            },
        ),
{
    let id = html::escaped(item.text("id"@));
    let class = note::note_class(item);
    safety::law_escaped_text_is_inert(item.text("id"@));
    reveal_strlit("<div id=\"body-");
    reveal_strlit("<div id=");
    reveal_strlit("body-");
    reveal_strlit("\" class=\"feed-body");
    reveal_strlit(" class=");
    reveal_strlit("feed-body");
    reveal_strlit(" markdown-section");
    reveal_strlit("feed-body markdown-section");
    reveal_strlit("\" data-collapsed=\"true\">");
    reveal_strlit(" data-collapsed=\"true\">");
    reveal_strlit("id");
    reveal_strlit("class");
    let q = seq!['"'];
    let a = "<div id=\"body-"@;
    let b = "\" class=\"feed-body"@;
    let c = "\" data-collapsed=\"true\">"@;
    let last = " data-collapsed=\"true\">"@;
    let value = "body-"@ + id;
    let classes = "feed-body"@ + class;
    assert(a =~= "<div id="@ + q + "body-"@);
    assert(b =~= q + " class="@ + q + "feed-body"@);
    assert(c =~= q + last);
    if note::is_article(item) {
        assert(classes =~= "feed-body markdown-section"@);
    } else {
        assert(classes =~= "feed-body"@);
    }
    let r = reading::with_value(" class="@, classes, last);
    assert(b + class + c =~= q + r);
    assert(body_tag(item) =~= a + id + (b + class + c));
    assert(a + id + (q + r) =~= reading::with_value("<div id="@, value, r));
    assert forall|i: int| 0 <= i < value.len() implies #[trigger] value[i] != '"' by {
        if i >= 5 {
            assert(value[i] == id[i - 5]);
        }
    }
    assert("<div id="@.skip(4) =~= seq![' '] + "id"@ + seq!['=']);
    assert(" class="@.skip(0) =~= seq![' '] + "class"@ + seq!['=']);
    reading::lemma_attribute_step("<div id="@, value, r, "id"@);
    reading::lemma_attribute_step("<div id="@, value, r, "class"@);
    reading::lemma_other_name("<div id="@, "class"@, 1);
    reading::lemma_attribute_step(" class="@, classes, last, "class"@);
    reading::lemma_no_close(a, id);
    reading::lemma_no_close(a + id, b);
    assert(forall|i: int| 0 <= i < class.len() ==> #[trigger] class[i] != '>');
    reading::lemma_valued_tag(a + id + b, class, c);
}

/// The heading of a note on the page.
proof fn lemma_heading(item: JsonView)
    ensures
        reading::is_closed(note::note_heading(item)),
        reading::visible(note::note_heading(item)) == if item.text("source"@) == "GitHub blog"@ {
            html::escaped(item.text("title"@))
        } else {
            Seq::empty()
        },
        reading::tags(note::note_heading(item)) == if item.text("source"@) == "GitHub blog"@ {
            seq!["<h3>"@, "</h3>"@]
        } else {
            Seq::empty()
        },
{
    if note::is_article(item) {
        let title = html::escaped(item.text("title"@));
        reveal_strlit("<h3>");
        reveal_strlit("</h3>");
        reading::lemma_plain_tag("<h3>"@);
        reading::lemma_plain_tag("</h3>"@);
        reading::lemma_escaped_is_closed(item.text("title"@));
        reading::lemma_closed_three("<h3>"@, title, "</h3>"@);
        assert(reading::visible(note::note_heading(item)) =~= title);
        assert(reading::tags(note::note_heading(item)) =~= seq!["<h3>"@, "</h3>"@]);
    } else {
        reading::lemma_nothing_is_closed();
    }
}

/// Pieces of what stands before the body of a note, put together in another order.
proof fn lemma_head_pieces(
    a: Seq<char>,
    id: Seq<char>,
    end: Seq<char>,
    meta: Seq<char>,
    labels: Seq<char>,
    t: Seq<char>,
    time: Seq<char>,
    shown: Seq<char>,
    close: Seq<char>,
    heading: Seq<char>,
    b: Seq<char>,
    c: Seq<char>,
    class: Seq<char>,
    d: Seq<char>,
)
    ensures
        a + id + (end + meta) + labels + t + time + end + shown + close + heading + b + id + c
            + class + d == (a + id + end) + meta + labels + (t + time + end) + shown + close
            + heading + (b + id + c + class + d),
{
    let s0 = a + id + end;
    assert(a + id + (end + meta) =~= s0 + meta);
    let s1 = s0 + meta + labels;
    assert(s1 + t + time + end =~= s1 + (t + time + end));
    let s2 = s1 + (t + time + end) + shown + close + heading;
    assert(s2 + b + id + c + class + d =~= s2 + (b + id + c + class + d));
}

/// What stands before the body of a note: the tag that opens it carries its id, then
/// come the links to where it was published, the time of its publication, shown as
/// its date, the title of an article, and the tag that opens the body.
pub proof fn law_notes_open_with_their_head(item: JsonView, date: Seq<char>) -> (own: (
    Seq<char>,
    Seq<char>,
    Seq<char>,
))
    ensures
        ({
            let head = note::note_head(item, date);
            let labels = note::origin_labels(item, note::origins_of(item));
            let title = if item.text("source"@) == "GitHub blog"@ {
                html::escaped(item.text("title"@))
            } else {
                Seq::empty()
            };
            let title_tags = if item.text("source"@) == "GitHub blog"@ {
                seq!["<h3>"@, "</h3>"@]
            } else {
                Seq::empty()
            };
            let heading = if item.text("source"@) == "GitHub blog"@ {
                "<h3>"@ + title + "</h3>"@
            } else {
                Seq::empty()
            };
            &&& head == own.0 + "<div class=\"feed-item__meta\">"@ + labels + own.1
                + note::shown_date(date) + "</time></div>"@ + heading + own.2
            &&& reading::is_closed(head)
            &&& reading::is_closed(labels)
            &&& reading::visible(head) == reading::visible(labels) + note::shown_date(date) + title
            &&& reading::tags(head) == seq![own.0, "<div class=\"feed-item__meta\">"@]
                + reading::tags(labels) + seq![own.1, "</time>"@, "</div>"@] + title_tags + seq![
                own.2,
            ]
            &&& reading::attribute(own.0, "id"@) == Some(html::escaped(item.text("id"@)))
            &&& reading::attribute(own.1, "datetime"@) == Some(
                html::escaped(item.text("publishedAt"@)),
            )
            &&& reading::attribute(own.2, "id"@) == Some(
                "body-"@ + html::escaped(item.text("id"@)),
            )
            &&& reading::attribute(own.2, "class"@) == Some(
                if item.text("source"@) == "GitHub blog"@ {
                    "feed-body markdown-section"@
                } else {
                    "feed-body"@
                },
            )
        }),
{
    let id = html::escaped(item.text("id"@));
    let labels = note::origin_labels(item, note::origins_of(item));
    let time = html::escaped(item.text("publishedAt"@));
    let shown = note::shown_date(date);
    let heading = note::note_heading(item);
    let class = note::note_class(item);
    let meta = "<div class=\"feed-item__meta\">"@;
    let close = "</time></div>"@;
    let head = note::note_head(item, date);
    reveal_strlit("\"><div class=\"feed-item__meta\">");
    reveal_strlit("<div class=\"feed-item__meta\">");
    reveal_strlit("\">");
    reveal_strlit("</time></div>");
    reveal_strlit("</time>");
    reveal_strlit("</div>");
    assert("\"><div class=\"feed-item__meta\">"@ =~= "\">"@ + meta);
    assert(close =~= "</time>"@ + "</div>"@);
    lemma_head_pieces(
        "<article class=\"feed-item\" id=\""@,
        id,
        "\">"@,
        meta,
        labels,
        "<time datetime=\""@,
        time,
        shown,
        close,
        heading,
        "<div id=\"body-"@,
        "\" class=\"feed-body"@,
        class,
        "\" data-collapsed=\"true\">"@,
    );
    let t1 = article_tag(item.text("id"@));
    let t2 = time_tag(item.text("publishedAt"@));
    let t3 = body_tag(item);
    let s1 = t1 + meta;
    let s2 = s1 + labels;
    let s3 = s2 + t2;
    let s4 = s3 + shown;
    let s5 = s4 + close;
    let s6 = s5 + heading;
    assert(head == s6 + t3);
    lemma_article_tag(item.text("id"@));
    lemma_time_tag(item.text("publishedAt"@));
    lemma_body_tag(item);
    lemma_heading(item);
    lemma_labels_are_closed(item, note::origins_of(item));
    lemma_date_is_plain(date);
    reading::lemma_text_is_closed(shown);
    reading::lemma_plain_tag(meta);
    reading::lemma_plain_tag("</time>"@);
    reading::lemma_plain_tag("</div>"@);
    reading::lemma_closed_concat("</time>"@, "</div>"@);
    reading::lemma_closed_concat(t1, meta);
    reading::lemma_closed_concat(s1, labels);
    reading::lemma_closed_concat(s2, t2);
    reading::lemma_closed_concat(s3, shown);
    reading::lemma_closed_concat(s4, close);
    reading::lemma_closed_concat(s5, heading);
    reading::lemma_closed_concat(s6, t3);
    let inner = reading::tags(labels);
    assert(reading::visible(s4) =~= reading::visible(labels) + shown);
    assert(reading::visible(s5) =~= reading::visible(labels) + shown);
    assert(reading::visible(head) =~= reading::visible(labels) + shown + reading::visible(heading));
    assert(reading::tags(s1) =~= seq![t1, meta]);
    assert(reading::tags(s3) =~= seq![t1, meta] + inner + seq![t2]);
    assert(reading::tags(s5) =~= seq![t1, meta] + inner + seq![t2, "</time>"@, "</div>"@]);
    let tags = reading::tags(head);
    assert(tags =~= seq![t1, meta] + inner + seq![t2, "</time>"@, "</div>"@] + reading::tags(
        heading,
    ) + seq![t3]);
    (t1, t2, t3)
}

/// The tag of the button that shows the whole body of a note.
spec fn button_tag(id: Seq<char>) -> Seq<char> {
    "<button class=\"feed-expand\" type=\"button\" aria-expanded=\"false\" aria-controls=\"body-"@
        + html::escaped(id) + "\" hidden>"@
}

proof fn lemma_button_tag(id: Seq<char>)
    ensures
        reading::is_closed(button_tag(id)),
        reading::visible(button_tag(id)) == Seq::<char>::empty(),
        reading::tags(button_tag(id)) == seq![button_tag(id)],
        reading::attribute(button_tag(id), "aria-controls"@) == Some(
            "body-"@ + html::escaped(id),
        ),
{
    let safe = html::escaped(id);
    safety::law_escaped_text_is_inert(id);
    reveal_strlit(
        "<button class=\"feed-expand\" type=\"button\" aria-expanded=\"false\" aria-controls=\"body-",
    );
    reveal_strlit("<button class=");
    reveal_strlit("feed-expand");
    reveal_strlit(" type=");
    reveal_strlit("button");
    reveal_strlit(" aria-expanded=");
    reveal_strlit("false");
    reveal_strlit(" aria-controls=");
    reveal_strlit("body-");
    reveal_strlit("\" hidden>");
    reveal_strlit(" hidden>");
    reveal_strlit("aria-controls");
    let q = seq!['"'];
    let a =
        "<button class=\"feed-expand\" type=\"button\" aria-expanded=\"false\" aria-controls=\"body-"@;
    let c = "\" hidden>"@;
    let value = "body-"@ + safe;
    assert(a =~= "<button class="@ + q + "feed-expand"@ + q + " type="@ + q + "button"@ + q
        + " aria-expanded="@ + q + "false"@ + q + " aria-controls="@ + q + "body-"@);
    assert(c =~= q + " hidden>"@);
    let r0 = reading::with_value(" aria-controls="@, value, " hidden>"@);
    let r1 = reading::with_value(" aria-expanded="@, "false"@, r0);
    let r2 = reading::with_value(" type="@, "button"@, r1);
    assert(button_tag(id) =~= "<button class="@ + q + "feed-expand"@ + q + " type="@ + q + "button"@
        + q + " aria-expanded="@ + q + "false"@ + q + r0);
    assert(button_tag(id) =~= reading::with_value("<button class="@, "feed-expand"@, r2));
    assert forall|i: int| 0 <= i < value.len() implies #[trigger] value[i] != '"' by {
        if i >= 5 {
            assert(value[i] == safe[i - 5]);
        }
    }
    assert(" aria-controls="@.skip(0) =~= seq![' '] + "aria-controls"@ + seq!['=']);
    let name = "aria-controls"@;
    reading::lemma_attribute_step("<button class="@, "feed-expand"@, r2, name);
    reading::lemma_other_name("<button class="@, name, 3);
    reading::lemma_attribute_step(" type="@, "button"@, r1, name);
    reading::lemma_other_name(" type="@, name, 1);
    reading::lemma_attribute_step(" aria-expanded="@, "false"@, r0, name);
    reading::lemma_other_name(" aria-expanded="@, name, 1);
    reading::lemma_attribute_step(" aria-controls="@, value, " hidden>"@, name);
    reading::lemma_valued_tag(a, safe, c);
}

/// What stands behind the body of a note: the notes that it quotes, the link to a
/// video that is not in the store, the button that shows the whole body, and then
/// its pictures and its videos.
pub proof fn law_notes_close_with_their_foot(item: JsonView, emojis: JsonView) -> (button: Seq<char>)
    ensures
        ({
            let foot = note::note_foot(item, emojis);
            let quoted = html::quotes_as_html(item.get("quotes"@).elements(), emojis, 0);
            let link = note::video_link_html(item);
            let images = note::images_html(note::image_paths(item.get("images"@).elements()));
            let videos = note::videos_html(item);
            &&& foot == quoted + link + "</div>"@ + button + "展开"@ + "</button>"@ + images + videos
                + "</article>"@
            &&& reading::is_closed(foot)
            &&& reading::visible(foot) == reading::visible(quoted) + reading::visible(link)
                + "展开"@ + reading::visible(images) + reading::visible(videos)
            &&& reading::tags(foot) == reading::tags(quoted) + reading::tags(link) + seq![
                "</div>"@,
                button,
                "</button>"@,
            ] + reading::tags(images) + reading::tags(videos) + seq!["</article>"@]
            &&& reading::attribute(button, "aria-controls"@) == Some(
                "body-"@ + html::escaped(item.text("id"@)),
            )
        }),
{
    let id = html::escaped(item.text("id"@));
    let foot = note::note_foot(item, emojis);
    let quoted = html::quotes_as_html(item.get("quotes"@).elements(), emojis, 0);
    let link = note::video_link_html(item);
    let paths = note::image_paths(item.get("images"@).elements());
    let images = note::images_html(paths);
    let videos = note::videos_html(item);
    let a =
        "<button class=\"feed-expand\" type=\"button\" aria-expanded=\"false\" aria-controls=\"body-"@;
    let b = "\" hidden>"@;
    let t = "展开"@;
    let div = "</div>"@;
    let end = "</button>"@;
    reveal_strlit(
        "</div><button class=\"feed-expand\" type=\"button\" aria-expanded=\"false\" aria-controls=\"body-",
    );
    reveal_strlit(
        "<button class=\"feed-expand\" type=\"button\" aria-expanded=\"false\" aria-controls=\"body-",
    );
    reveal_strlit("\" hidden>展开</button>");
    reveal_strlit("\" hidden>");
    reveal_strlit("展开");
    reveal_strlit("</div>");
    reveal_strlit("</button>");
    reveal_strlit("</article>");
    assert("</div><button class=\"feed-expand\" type=\"button\" aria-expanded=\"false\" aria-controls=\"body-"@
        =~= div + a);
    assert("\" hidden>展开</button>"@ =~= b + t + end);
    let button = button_tag(item.text("id"@));
    let s0 = quoted + link;
    let s1 = s0 + div;
    let s2 = s1 + button;
    let s3 = s2 + t;
    let s4 = s3 + end;
    let s5 = s4 + images;
    let s6 = s5 + videos;
    assert(s0 + (div + a) + id + (b + t + end) =~= s4);
    assert(foot == s6 + "</article>"@);
    quotes::lemma_quotes_are_closed(item.get("quotes"@).elements(), emojis, 0);
    law_missing_videos_are_linked(item);
    lemma_button_tag(item.text("id"@));
    contents::law_pictures_are_shown_in_order(paths);
    contents::law_videos_are_shown_in_order(item);
    reading::lemma_plain_tag(div);
    reading::lemma_plain_tag(end);
    reading::lemma_plain_tag("</article>"@);
    reading::lemma_text_is_closed(t);
    reading::lemma_closed_concat(quoted, link);
    reading::lemma_closed_concat(s0, div);
    reading::lemma_closed_concat(s1, button);
    reading::lemma_closed_concat(s2, t);
    reading::lemma_closed_concat(s3, end);
    reading::lemma_closed_concat(s4, images);
    reading::lemma_closed_concat(s5, videos);
    reading::lemma_closed_concat(s6, "</article>"@);
    assert(reading::visible(s2) =~= reading::visible(quoted) + reading::visible(link));
    assert(reading::visible(s4) =~= reading::visible(quoted) + reading::visible(link) + t);
    assert(reading::visible(foot) =~= reading::visible(s6));
    assert(reading::tags(s4) =~= reading::tags(quoted) + reading::tags(link) + seq![
        div,
        button,
        end,
    ]);
    button
}

/// A note that is no article is seen whole: the links to where it was published, its
/// date, its text, the notes that it quotes, the link to a video that is not in the
/// store, the button that shows the whole body, its pictures and its videos, in this
/// order and nothing else.
pub proof fn law_notes_are_seen_whole(item: JsonView, emojis: JsonView, date: Seq<char>)
    requires
        item.text("source"@) != "GitHub blog"@,
    ensures
        ({
            let all = note::item_html(item, emojis, date);
            let labels = note::origin_labels(item, note::origins_of(item));
            let content = note::note_content(item.text("text"@), item.flag("hasVideo"@));
            let body = html::social_html(content, item.text("source"@), emojis);
            let quoted = html::quotes_as_html(item.get("quotes"@).elements(), emojis, 0);
            let link = note::video_link_html(item);
            let images = note::images_html(note::image_paths(item.get("images"@).elements()));
            let videos = note::videos_html(item);
            &&& reading::is_closed(all)
            &&& all == note::note_head(item, date) + ("<p>"@ + body + "</p>"@) + note::note_foot(
                item,
                emojis,
            )
            &&& reading::visible(all) == reading::visible(labels) + note::shown_date(date)
                + html::escaped(content) + reading::visible(quoted) + reading::visible(link)
                + "展开"@ + reading::visible(images) + reading::visible(videos)
            &&& reading::tags(all) == reading::tags(note::note_head(item, date)) + seq!["<p>"@]
                + reading::tags(body) + seq!["</p>"@] + reading::tags(note::note_foot(item, emojis))
        }),
{
    let all = note::item_html(item, emojis, date);
    let head = note::note_head(item, date);
    let foot = note::note_foot(item, emojis);
    let labels = note::origin_labels(item, note::origins_of(item));
    let content = note::note_content(item.text("text"@), item.flag("hasVideo"@));
    let inner = html::social_html(content, item.text("source"@), emojis);
    let body = note::body_html(item, emojis);
    reveal_strlit("<p>");
    reveal_strlit("</p>");
    let _own = law_notes_open_with_their_head(item, date);
    let _button = law_notes_close_with_their_foot(item, emojis);
    reading::law_note_text_is_seen_whole(content, item.text("source"@), emojis);
    reading::lemma_plain_tag("<p>"@);
    reading::lemma_plain_tag("</p>"@);
    reading::lemma_closed_three("<p>"@, inner, "</p>"@);
    assert(reading::visible(body) =~= html::escaped(content));
    assert(reading::tags(body) =~= seq!["<p>"@] + reading::tags(inner) + seq!["</p>"@]);
    reading::lemma_closed_three(head, body, foot);
    let h = reading::visible(labels) + note::shown_date(date);
    assert(reading::visible(head) =~= h);
    lemma_visible_pieces(
        h,
        html::escaped(content),
        reading::visible(html::quotes_as_html(item.get("quotes"@).elements(), emojis, 0)),
        reading::visible(note::video_link_html(item)),
        reading::visible(note::images_html(note::image_paths(item.get("images"@).elements()))),
        reading::visible(note::videos_html(item)),
    );
    let t = reading::tags(head);
    assert(t + (seq!["<p>"@] + reading::tags(inner) + seq!["</p>"@]) + reading::tags(foot) =~= t
        + seq!["<p>"@] + reading::tags(inner) + seq!["</p>"@] + reading::tags(foot));
}

proof fn lemma_visible_pieces(
    h: Seq<char>,
    content: Seq<char>,
    quoted: Seq<char>,
    link: Seq<char>,
    images: Seq<char>,
    videos: Seq<char>,
)
    ensures
        h + content + (quoted + link + "展开"@ + images + videos) == h + content + quoted + link
            + "展开"@ + images + videos,
{
    assert(h + content + (quoted + link + "展开"@ + images + videos) =~= h + content + quoted + link
        + "展开"@ + images + videos);
}

/// An article is its head, its body and its foot. The body is its text, rendered as
/// Markdown in which raw HTML is text, sanitised with the classes kept, and with its
/// assets where they are served.
pub proof fn law_articles_are_rendered(item: JsonView, emojis: JsonView, date: Seq<char>)
    requires
        item.text("source"@) == "GitHub blog"@,
    ensures
        note::item_html(item, emojis, date) == note::note_head(item, date) + note::article_html(
            trusted::sanitized_html(note::markdown_html(item.text("text"@)), "class"@),
            item.text("id"@),
        ) + note::note_foot(item, emojis),
{
}

} // verus!
