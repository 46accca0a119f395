//! What the forms of a note hold: nothing of it is lost on the page, in Markdown or
//! for a search.
use vstd::prelude::*;

use crate::cache;
use crate::html;
use crate::json::JsonView;
use crate::note;
use crate::number;
use crate::reading;
use crate::safety;
use crate::text;
use crate::trusted;

verus! {

/// A search looks at the whole note: its title, its text and the Markdown of the
/// notes that it quotes, in this order and each on lines of its own. All that they
/// hold stands there as it is.
pub proof fn law_search_looks_at_the_whole_note(item: JsonView)
    ensures
        ({
            let searchable = cache::searchable_text(item);
            let quotes = html::quotes_as_md(item.get("quotes"@).elements(), 0);
            &&& text::contains(searchable, item.text("title"@))
            &&& text::contains(searchable, item.text("text"@))
            &&& text::contains(searchable, quotes)
            &&& searchable == text::join(
                seq![item.text("title"@), item.text("text"@), quotes],
                seq!['\n'],
            )
        }),
{
    let title = item.text("title"@);
    let body = item.text("text"@);
    let quotes = html::quotes_as_md(item.get("quotes"@).elements(), 0);
    let searchable = cache::searchable_text(item);
    reveal_strlit("\n");
    let feed = seq!['\n'];
    let none = Seq::<char>::empty();
    assert("\n"@ =~= feed);
    assert(searchable =~= none + title + (feed + body + feed + quotes));
    text::lemma_contains_between(none, title, feed + body + feed + quotes);
    assert(searchable =~= (title + feed) + body + (feed + quotes));
    text::lemma_contains_between(title + feed, body, feed + quotes);
    assert(searchable =~= (title + feed + body + feed) + quotes + none);
    text::lemma_contains_between(title + feed + body + feed, quotes, none);
    let parts = seq![title, body, quotes];
    assert(parts.drop_last() =~= seq![title, body]);
    assert(parts.drop_last().drop_last() =~= seq![title]);
    reveal_with_fuel(text::join, 3);
    assert(text::join(parts, feed) =~= title + feed + body + feed + quotes);
}

/// A note as Markdown holds its text unchanged, whether it is an article or not: the
/// text stands behind a heading, which opens with `## ` and holds the date and the
/// title of an article, and before the pictures and the quoted notes. A rule closes
/// the note.
pub proof fn law_markdown_holds_the_text(item: JsonView, date: Seq<char>) -> (heading: Seq<char>)
    ensures
        ({
            let body = item.text("text"@);
            let pictures = note::image_list_md(note::image_paths(item.get("images"@).elements()));
            let quotes = html::quotes_as_md(item.get("quotes"@).elements(), 0);
            let section = note::item_md(item, date);
            let gap = seq!['\n', '\n'];
            &&& section == heading + gap + body + gap + pictures + quotes + seq![
                '\n',
                '-',
                '-',
                '-',
                '\n',
                '\n',
            ]
            &&& text::contains(section, body)
            &&& text::contains(section, pictures)
            &&& text::contains(section, quotes)
            &&& text::starts_with(heading, seq!['#', '#', ' '])
            &&& text::ends_with(heading, date)
            &&& item.text("source"@) == "GitHub blog"@ ==> heading == seq!['#', '#', ' ']
                + item.text("title"@) + gap + date
            &&& item.text("source"@) != "GitHub blog"@ ==> heading == seq!['#', '#', ' '] + date
        }),
{
    let body = item.text("text"@);
    let title = item.text("title"@);
    let pictures = note::image_list_md(note::image_paths(item.get("images"@).elements()));
    let quotes = html::quotes_as_md(item.get("quotes"@).elements(), 0);
    let section = note::item_md(item, date);
    let gap = seq!['\n', '\n'];
    let mark = seq!['#', '#', ' '];
    let rule = seq!['\n', '-', '-', '-', '\n', '\n'];
    reveal_strlit("## ");
    reveal_strlit("\n\n");
    reveal_strlit("\n---\n\n");
    assert("## "@ =~= mark);
    assert("\n\n"@ =~= gap);
    assert("\n---\n\n"@ =~= rule);
    let heading = if note::is_article(item) {
        mark + title + gap + date
    } else {
        mark + date
    };
    if note::is_article(item) {
        assert(mark + (title + gap + date) =~= heading);
    }
    assert(section == heading + gap + body + gap + pictures + quotes + rule);
    assert(heading.take(3) =~= mark);
    assert(heading.skip(heading.len() - date.len()) =~= date);
    lemma_between_three(heading + gap, body, gap, pictures, quotes, rule);
    heading
}

/// Texts between others are found.
proof fn lemma_between_three(
    front: Seq<char>,
    a: Seq<char>,
    gap: Seq<char>,
    b: Seq<char>,
    c: Seq<char>,
    back: Seq<char>,
)
    ensures
        text::contains(front + a + gap + b + c + back, a),
        text::contains(front + a + gap + b + c + back, b),
        text::contains(front + a + gap + b + c + back, c),
{
    let all = front + a + gap + b + c + back;
    assert(all =~= front + a + (gap + b + c + back));
    text::lemma_contains_between(front, a, gap + b + c + back);
    assert(all =~= (front + a + gap) + b + (c + back));
    text::lemma_contains_between(front + a + gap, b, c + back);
    text::lemma_contains_between(front + a + gap + b, c, back);
}

/// What begins the paths of pictures and videos in the store.
pub open spec fn is_stored(item: JsonView) -> bool {
    item is Text && text::starts_with(item->Text_0, "/content-assets/social/"@)
}

/// The pictures of a note are exactly the texts in its list that begin with the path
/// of the store, in their order: none is left out and none is added.
pub proof fn law_pictures_are_those_of_the_store(items: Seq<JsonView>)
    ensures
        note::image_paths(items) == items.filter(|item: JsonView| is_stored(item)).map_values(
            |item: JsonView| item->Text_0,
        ),
        note::image_paths(items).len() == items.filter(|item: JsonView| is_stored(item)).len(),
        forall|i: int|
            0 <= i < items.len() && is_stored(#[trigger] items[i]) ==> note::image_paths(
                items,
            ).contains(items[i]->Text_0),
        forall|k: int|
            0 <= k < note::image_paths(items).len() ==> items.contains(
                JsonView::Text(#[trigger] note::image_paths(items)[k]),
            ),
    decreases items.len(),
{
    reveal(Seq::filter);
    let stored = |item: JsonView| is_stored(item);
    let path_of = |item: JsonView| item->Text_0;
    let paths = note::image_paths(items);
    if items.len() > 0 {
        let front = items.drop_last();
        law_pictures_are_those_of_the_store(front);
        let before = note::image_paths(front);
        if is_stored(items.last()) {
            assert(front.filter(stored).push(items.last()).map_values(path_of)
                =~= front.filter(stored).map_values(path_of).push(items.last()->Text_0));
            assert(paths[paths.len() - 1] == items.last()->Text_0);
        }
        assert forall|i: int| 0 <= i < items.len() && is_stored(#[trigger] items[i]) implies
            paths.contains(items[i]->Text_0) by {
            if i < front.len() {
                assert(front[i] == items[i]);
                let k = choose|k: int| 0 <= k < before.len() && before[k] == items[i]->Text_0;
                assert(paths[k] == items[i]->Text_0);
            }
        }
        assert forall|k: int| 0 <= k < paths.len() implies items.contains(
            JsonView::Text(#[trigger] paths[k]),
        ) by {
            if k < before.len() {
                assert(paths[k] == before[k]);
                let i = choose|i: int| 0 <= i < front.len() && front[i] == JsonView::Text(before[k]);
                assert(items[i] == JsonView::Text(paths[k]));
            } else {
                assert(items[items.len() - 1] == JsonView::Text(paths[k]));
            }
        }
    } else {
        assert(paths =~= items.filter(stored).map_values(path_of));
    }
}

/// Numerals have no character that means something in HTML.
proof fn lemma_decimal_is_plain(n: nat)
    ensures
        safety::is_inert(number::decimal(n)),
{
    number::lemma_decimal_round_trip(n);
}

/// The link around a picture.
spec fn image_link(path: Seq<char>, n: nat) -> Seq<char> {
    "<a href=\""@ + html::escaped(path) + ("\" class=\"feed-image\" aria-label=\"放大第 "@
        + number::decimal(n) + " 张配图\">"@)
}

/// The tag of a picture.
spec fn image_tag(path: Seq<char>, n: nat) -> Seq<char> {
    "<img src=\""@ + html::escaped(path) + ("\" alt=\"配图 "@ + number::decimal(n)
        + "\" loading=\"lazy\" width=\"160\" height=\"160\" />"@)
}

/// Pieces of a picture, put together in another order.
proof fn lemma_image_pieces(
    a: Seq<char>,
    src: Seq<char>,
    b: Seq<char>,
    n: Seq<char>,
    c: Seq<char>,
    d: Seq<char>,
    e: Seq<char>,
    f: Seq<char>,
    g: Seq<char>,
)
    ensures
        a + src + b + n + (c + d) + src + e + n + (f + g) == (a + src + (b + n + c)) + (d + src + (e
            + n + f)) + g,
{
    let link = a + src + (b + n + c);
    assert(a + src + b + n + (c + d) =~= link + d);
    assert(link + d + src + e + n + (f + g) =~= link + (d + src + (e + n + f)) + g);
}

/// A picture is a link to it around the picture.
proof fn lemma_image_parts(path: Seq<char>, n: nat)
    ensures
        note::image_html(path, n) == image_link(path, n) + image_tag(path, n) + "</a>"@,
{
    reveal_strlit(" 张配图\"><img src=\"");
    reveal_strlit(" 张配图\">");
    reveal_strlit("<img src=\"");
    reveal_strlit("\" loading=\"lazy\" width=\"160\" height=\"160\" /></a>");
    reveal_strlit("\" loading=\"lazy\" width=\"160\" height=\"160\" />");
    reveal_strlit("</a>");
    assert(" 张配图\"><img src=\""@ =~= " 张配图\">"@ + "<img src=\""@);
    assert("\" loading=\"lazy\" width=\"160\" height=\"160\" /></a>"@
        =~= "\" loading=\"lazy\" width=\"160\" height=\"160\" />"@ + "</a>"@);
    lemma_image_pieces(
        "<a href=\""@,
        html::escaped(path),
        "\" class=\"feed-image\" aria-label=\"放大第 "@,
        number::decimal(n),
        " 张配图\">"@,
        "<img src=\""@,
        "\" alt=\"配图 "@,
        "\" loading=\"lazy\" width=\"160\" height=\"160\" />"@,
        "</a>"@,
    );
}

/// What the link around a picture says.
proof fn lemma_image_link(path: Seq<char>, n: nat)
    ensures
        reading::is_closed(image_link(path, n)),
        reading::visible(image_link(path, n)) == Seq::<char>::empty(),
        reading::tags(image_link(path, n)) == seq![image_link(path, n)],
        reading::attribute(image_link(path, n), "href"@) == Some(html::escaped(path)),
        reading::attribute(image_link(path, n), "class"@) == Some("feed-image"@),
        reading::attribute(image_link(path, n), "aria-label"@) == Some(
            "放大第 "@ + number::decimal(n) + " 张配图"@,
        ),
{
    let src = html::escaped(path);
    let num = number::decimal(n);
    let label = "放大第 "@ + num + " 张配图"@;
    safety::law_escaped_text_is_inert(path);
    lemma_decimal_is_plain(n);
    reveal_strlit("<a href=\"");
    reveal_strlit("<a href=");
    reveal_strlit("\" class=\"feed-image\" aria-label=\"放大第 ");
    reveal_strlit(" class=");
    reveal_strlit("feed-image");
    reveal_strlit(" aria-label=");
    reveal_strlit("放大第 ");
    reveal_strlit(" 张配图\">");
    reveal_strlit(" 张配图");
    reveal_strlit(">");
    reveal_strlit("href");
    reveal_strlit("aria-label");
    let b = "\" class=\"feed-image\" aria-label=\"放大第 "@;
    let c = " 张配图\">"@;
    let q = seq!['"'];
    assert("<a href=\""@ =~= "<a href="@ + q);
    assert(b =~= q + " class="@ + q + "feed-image"@ + q + " aria-label="@ + q + "放大第 "@);
    assert(c =~= " 张配图"@ + q + ">"@);
    let inner = reading::with_value(" aria-label="@, label, ">"@);
    let outer = reading::with_value(" class="@, "feed-image"@, inner);
    assert(b + num + c =~= q + outer);
    assert(image_link(path, n) =~= reading::with_value("<a href="@, src, outer));
    assert forall|i: int| 0 <= i < label.len() implies #[trigger] label[i] != '"' by {
        if 4 <= i < 4 + num.len() {
            assert(label[i] == num[i - 4]);
        }
    }
    assert("<a href="@.skip(2) =~= seq![' '] + "href"@ + seq!['=']);
    assert(" aria-label="@.skip(0) =~= seq![' '] + "aria-label"@ + seq!['=']);
    reading::lemma_attribute_step("<a href="@, src, outer, "href"@);
    reveal_strlit("class");
    reading::lemma_attribute_step("<a href="@, src, outer, "class"@);
    reading::lemma_other_name("<a href="@, "class"@, 1);
    assert(" class="@.skip(0) =~= seq![' '] + "class"@ + seq!['=']);
    reading::lemma_attribute_step(" class="@, "feed-image"@, inner, "class"@);
    reading::lemma_attribute_step("<a href="@, src, outer, "aria-label"@);
    reading::lemma_other_name("<a href="@, "aria-label"@, 1);
    reading::lemma_attribute_step(" class="@, "feed-image"@, inner, "aria-label"@);
    reading::lemma_other_name(" class="@, "aria-label"@, 1);
    reading::lemma_attribute_step(" aria-label="@, label, ">"@, "aria-label"@);
    reading::lemma_no_close(b, num);
    assert forall|i: int| 0 <= i < (b + num + c).len() - 1 implies #[trigger] (b + num + c)[i]
        != '>' by {
        if i < (b + num).len() {
            assert((b + num + c)[i] == (b + num)[i]);
        } else {
            assert((b + num + c)[i] == c[i - (b + num).len()]);
        }
    }
    assert((b + num + c).last() == c.last());
    reading::lemma_valued_tag("<a href=\""@, src, b + num + c);
}

/// What the tag of a picture says.
proof fn lemma_image_tag(path: Seq<char>, n: nat)
    ensures
        reading::is_closed(image_tag(path, n)),
        reading::visible(image_tag(path, n)) == "配图 "@ + number::decimal(n),
        reading::tags(image_tag(path, n)) == seq![image_tag(path, n)],
        reading::attribute(image_tag(path, n), "src"@) == Some(html::escaped(path)),
        reading::attribute(image_tag(path, n), "alt"@) == Some("配图 "@ + number::decimal(n)),
        text::starts_with(image_tag(path, n), "<img "@),
{
    let src = html::escaped(path);
    let num = number::decimal(n);
    let alt = "配图 "@ + num;
    let tag = image_tag(path, n);
    safety::law_escaped_text_is_inert(path);
    lemma_decimal_is_plain(n);
    reveal_strlit("<img src=\"");
    reveal_strlit("<img src=");
    reveal_strlit("<img ");
    reveal_strlit("\" alt=\"配图 ");
    reveal_strlit(" alt=");
    reveal_strlit("配图 ");
    reveal_strlit("\" loading=\"lazy\" width=\"160\" height=\"160\" />");
    reveal_strlit(" loading=\"lazy\" width=\"160\" height=\"160\" />");
    reveal_strlit("src");
    reveal_strlit("alt");
    let a = "<img src=\""@;
    let b = "\" alt=\"配图 "@;
    let c = "\" loading=\"lazy\" width=\"160\" height=\"160\" />"@;
    let tail = " loading=\"lazy\" width=\"160\" height=\"160\" />"@;
    let q = seq!['"'];
    assert(a =~= "<img src="@ + q);
    assert(b =~= q + " alt="@ + q + "配图 "@);
    assert(c =~= q + tail);
    let rest = reading::with_value(" alt="@, alt, tail);
    assert(b + num + c =~= q + rest);
    assert(tag =~= reading::with_value("<img src="@, src, rest));
    assert forall|i: int| 0 <= i < alt.len() implies #[trigger] alt[i] != '"' by {
        if 3 <= i < 3 + num.len() {
            assert(alt[i] == num[i - 3]);
        }
    }
    assert("<img src="@.skip(4) =~= seq![' '] + "src"@ + seq!['=']);
    assert(" alt="@.skip(0) =~= seq![' '] + "alt"@ + seq!['=']);
    reading::lemma_attribute_step("<img src="@, src, rest, "src"@);
    reading::lemma_attribute_step("<img src="@, src, rest, "alt"@);
    reading::lemma_other_name("<img src="@, "alt"@, 1);
    reading::lemma_attribute_step(" alt="@, alt, tail, "alt"@);
    reading::lemma_no_close(a, src);
    reading::lemma_no_close(b, num);
    let front = a + src;
    let back = b + num + c;
    assert forall|i: int| 0 <= i < tag.len() - 1 implies #[trigger] tag[i] != '>' by {
        if i < front.len() {
            assert(tag[i] == front[i]);
        } else if i < front.len() + (b + num).len() {
            assert(tag[i] == (b + num)[i - front.len()]);
        } else {
            assert(tag[i] == c[i - front.len() - (b + num).len()]);
        }
    }
    assert(tag.last() == c.last());
    assert(tag.take(5) =~= "<img "@);
    reading::lemma_tag_is_closed(tag);
}

/// What is seen of pictures: each as its number.
pub open spec fn picture_texts(n: nat) -> Seq<char>
    decreases n,
{
    if n == 0 {
        Seq::empty()
    } else {
        picture_texts((n - 1) as nat) + "配图 "@ + number::decimal(n)
    }
}

/// What pictures in a row say.
proof fn lemma_image_list(paths: Seq<Seq<char>>)
    ensures
        reading::is_closed(note::image_list_html(paths)),
        reading::visible(note::image_list_html(paths)) == picture_texts(paths.len()),
        reading::tags(note::image_list_html(paths)).len() == 3 * paths.len(),
        forall|k: int|
            #![trigger paths[k]]
            0 <= k < paths.len() ==> shows_picture(
                reading::tags(note::image_list_html(paths)),
                3 * k,
                paths[k],
                (k + 1) as nat,
            ),
    decreases paths.len(),
{
    if paths.len() == 0 {
        reading::lemma_nothing_is_closed();
    } else {
        let front = paths.drop_last();
        let path = paths.last();
        let n = paths.len();
        let before = note::image_list_html(front);
        lemma_image_list(front);
        lemma_image_parts(path, n);
        lemma_image_link(path, n);
        lemma_image_tag(path, n);
        reveal_strlit("</a>");
        reading::lemma_plain_tag("</a>"@);
        reading::lemma_closed_three(image_link(path, n), image_tag(path, n), "</a>"@);
        reading::lemma_closed_concat(before, note::image_html(path, n));
        let all = reading::tags(note::image_list_html(paths));
        let old_tags = reading::tags(before);
        assert(all =~= old_tags + seq![image_link(path, n), image_tag(path, n), "</a>"@]);
        assert(reading::visible(note::image_html(path, n)) =~= "配图 "@ + number::decimal(n));
        assert(picture_texts((n - 1) as nat) + ("配图 "@ + number::decimal(n)) =~= picture_texts(n));
        assert forall|k: int|
            #![trigger paths[k]]
            0 <= k < paths.len() implies shows_picture(all, 3 * k, paths[k], (k + 1) as nat) by {
            if k < front.len() {
                assert(front[k] == paths[k]);
                assert(all[3 * k] == old_tags[3 * k]);
                assert(all[3 * k + 1] == old_tags[3 * k + 1]);
                assert(all[3 * k + 2] == old_tags[3 * k + 2]);
            }
        }
    }
}

/// Three tags from a place on show a picture with a given number, which is a link to
/// itself.
pub open spec fn shows_picture(tags: Seq<Seq<char>>, i: int, path: Seq<char>, n: nat) -> bool {
    &&& reading::attribute(tags[i], "href"@) == Some(html::escaped(path))
    &&& reading::attribute(tags[i], "class"@) == Some("feed-image"@)
    &&& reading::attribute(tags[i], "aria-label"@) == Some(
        "放大第 "@ + number::decimal(n) + " 张配图"@,
    )
    &&& text::starts_with(tags[i + 1], "<img "@)
    &&& reading::attribute(tags[i + 1], "src"@) == Some(html::escaped(path))
    &&& reading::attribute(tags[i + 1], "alt"@) == Some("配图 "@ + number::decimal(n))
    &&& tags[i + 2] == "</a>"@
}

/// All pictures of a note are shown, in order and numbered from one: each is a link
/// to the picture around the picture itself. Where there is none, nothing is shown.
pub proof fn law_pictures_are_shown_in_order(paths: Seq<Seq<char>>)
    ensures
        reading::is_closed(note::images_html(paths)),
        reading::visible(note::images_html(paths)) == picture_texts(paths.len()),
        paths.len() == 0 ==> note::images_html(paths) == Seq::<char>::empty(),
        paths.len() > 0 ==> reading::tags(note::images_html(paths)).len() == 3 * paths.len() + 2,
        forall|k: int|
            #![trigger paths[k]]
            0 <= k < paths.len() ==> shows_picture(
                reading::tags(note::images_html(paths)),
                3 * k + 1,
                paths[k],
                (k + 1) as nat,
            ),
{
    if paths.len() == 0 {
        reading::lemma_nothing_is_closed();
    } else {
        let open = "<div class=\"feed-images\">"@;
        let close = "</div>"@;
        let list = note::image_list_html(paths);
        reveal_strlit("<div class=\"feed-images\">");
        reveal_strlit("</div>");
        reading::lemma_plain_tag(open);
        reading::lemma_plain_tag(close);
        lemma_image_list(paths);
        reading::lemma_closed_three(open, list, close);
        let inner = reading::tags(list);
        let all = reading::tags(note::images_html(paths));
        assert(all =~= seq![open] + inner + seq![close]);
        assert(reading::visible(note::images_html(paths)) =~= picture_texts(paths.len()));
        assert forall|k: int|
            #![trigger paths[k]]
            0 <= k < paths.len() implies shows_picture(all, 3 * k + 1, paths[k], (k + 1) as nat) by {
            assert(all[3 * k + 1] == inner[3 * k]);
            assert(all[3 * k + 2] == inner[3 * k + 1]);
            assert(all[3 * k + 3] == inner[3 * k + 2]);
        }
    }
}

/// Pictures as Markdown stand one after another: those of two lists are those of the
/// first and then those of the second, and one picture is a link to its place on the
/// site.
pub proof fn law_markdown_pictures_stand_in_a_row(
    a: Seq<Seq<char>>,
    b: Seq<Seq<char>>,
    path: Seq<char>,
)
    ensures
        note::image_list_md(a + b) == note::image_list_md(a) + note::image_list_md(b),
        note::image_list_md(Seq::empty()) == Seq::<char>::empty(),
        note::image_list_md(seq![path]) == "![配图](https://zexi.me"@ + html::escaped(path)
            + ")\n\n"@,
    decreases b.len(),
{
    if b.len() == 0 {
        assert(a + b =~= a);
        assert(note::image_list_md(a) + Seq::<char>::empty() =~= note::image_list_md(a));
    } else {
        let front = b.drop_last();
        assert((a + b).drop_last() =~= a + front);
        law_markdown_pictures_stand_in_a_row(a, front, path);
        let x = "![配图](https://zexi.me"@;
        let y = html::escaped(b.last());
        let z = ")\n\n"@;
        let p = note::image_list_md(a);
        let q = note::image_list_md(front);
        assert(p + q + x + y + z =~= p + (q + x + y + z));
    }
    let none = Seq::<Seq<char>>::empty();
    assert(seq![path].drop_last() =~= none);
    assert(note::image_list_md(none) == Seq::<char>::empty());
    assert(Seq::<char>::empty() + "![配图](https://zexi.me"@ =~= "![配图](https://zexi.me"@);
}

/// The path of a video: the path of the store, a hash of 64 lower case hexadecimal
/// digits, and the extension.
pub proof fn law_videos_are_named_by_their_hash(hash: Seq<char>, path: Seq<char>)
    ensures
        note::valid_video("/content-assets/social/"@ + hash + ".mp4"@) <==> hash.len() == 64
            && forall|i: int| 0 <= i < hash.len() ==> "0123456789abcdef"@.contains(#[trigger] hash[i]),
        note::valid_video(path) ==> path.len() == 91 && path == "/content-assets/social/"@
            + path.subrange(23, 87) + ".mp4"@,
{
    reveal_strlit("/content-assets/social/");
    reveal_strlit(".mp4");
    let prefix = "/content-assets/social/"@;
    let whole = prefix + hash + ".mp4"@;
    let rest = whole.skip(prefix.len() as int);
    assert(whole.take(prefix.len() as int) =~= prefix);
    assert(rest =~= hash + ".mp4"@);
    assert(rest.skip(rest.len() - 4) =~= ".mp4"@);
    assert(rest.take(rest.len() - 4) =~= hash);
    assert forall|c: char| #[trigger] "0123456789abcdef"@.contains(c) <==> note::is_hex(c) by {
        lemma_hex_digits(c);
    }
    if note::valid_video(path) {
        let tail = path.skip(23);
        assert(path.take(23) =~= prefix);
        assert(tail.take(64) =~= path.subrange(23, 87));
        assert(tail.skip(64) =~= ".mp4"@);
        assert(path =~= prefix + path.subrange(23, 87) + ".mp4"@);
    }
}

/// The lower case hexadecimal digits.
proof fn lemma_hex_digits(c: char)
    ensures
        "0123456789abcdef"@.contains(c) <==> note::is_hex(c),
{
    reveal_strlit("0123456789abcdef");
    let digits = "0123456789abcdef"@;
    if note::is_hex(c) {
        let i = if c <= '9' {
            c as int - 48
        } else {
            c as int - 87
        };
        assert(digits[i] == c);
    }
}

/// The tag of a video.
spec fn video_tag(path: Seq<char>) -> Seq<char> {
    "<video class=\"feed-video\" controls playsinline preload=\"metadata\" aria-label=\"视频\" src=\""@
        + html::escaped(path) + "\">"@
}

/// A link with an address and nothing more.
spec fn plain_link(path: Seq<char>) -> Seq<char> {
    "<a href=\""@ + html::escaped(path) + "\">"@
}

/// What the tag of a video says.
proof fn lemma_video_tag(path: Seq<char>)
    ensures
        reading::is_closed(video_tag(path)),
        reading::visible(video_tag(path)) == Seq::<char>::empty(),
        reading::tags(video_tag(path)) == seq![video_tag(path)],
        reading::attribute(video_tag(path), "src"@) == Some(html::escaped(path)),
        text::starts_with(video_tag(path), "<video "@),
{
    let src = html::escaped(path);
    safety::law_escaped_text_is_inert(path);
    reveal_strlit(
        "<video class=\"feed-video\" controls playsinline preload=\"metadata\" aria-label=\"视频\" src=\"",
    );
    reveal_strlit("<video class=");
    reveal_strlit("<video ");
    reveal_strlit("feed-video");
    reveal_strlit(" controls playsinline preload=");
    reveal_strlit("metadata");
    reveal_strlit(" aria-label=");
    reveal_strlit("视频");
    reveal_strlit(" src=");
    reveal_strlit("\">");
    reveal_strlit(">");
    reveal_strlit("src");
    let q = seq!['"'];
    let a =
        "<video class=\"feed-video\" controls playsinline preload=\"metadata\" aria-label=\"视频\" src=\""@;
    let head = "<video class="@ + q + "feed-video"@ + q + " controls playsinline preload="@ + q
        + "metadata"@ + q + " aria-label="@ + q + "视频"@ + q + " src="@ + q;
    assert(a =~= head);
    assert("\">"@ =~= q + ">"@);
    let r0 = reading::with_value(" src="@, src, ">"@);
    let r1 = reading::with_value(" aria-label="@, "视频"@, r0);
    let r2 = reading::with_value(" controls playsinline preload="@, "metadata"@, r1);
    let tag = reading::with_value("<video class="@, "feed-video"@, r2);
    let body = " src="@ + q + src + q + ">"@;
    assert(r0 == body);
    assert(video_tag(path) =~= "<video class="@ + q + "feed-video"@ + q
        + " controls playsinline preload="@ + q + "metadata"@ + q + " aria-label="@ + q + "视频"@ + q
        + r0);
    assert(video_tag(path) =~= tag);
    assert(" src="@.skip(0) =~= seq![' '] + "src"@ + seq!['=']);
    reading::lemma_attribute_step("<video class="@, "feed-video"@, r2, "src"@);
    reading::lemma_other_name("<video class="@, "src"@, 1);
    reading::lemma_attribute_step(" controls playsinline preload="@, "metadata"@, r1, "src"@);
    reading::lemma_other_name(" controls playsinline preload="@, "src"@, 1);
    reading::lemma_attribute_step(" aria-label="@, "视频"@, r0, "src"@);
    reading::lemma_other_name(" aria-label="@, "src"@, 1);
    reading::lemma_attribute_step(" src="@, src, ">"@, "src"@);
    reading::lemma_valued_tag(a, src, "\">"@);
    assert(video_tag(path).take(7) =~= "<video "@);
}

/// What a plain link says.
proof fn lemma_plain_link(path: Seq<char>)
    ensures
        reading::is_closed(plain_link(path)),
        reading::visible(plain_link(path)) == Seq::<char>::empty(),
        reading::tags(plain_link(path)) == seq![plain_link(path)],
        reading::attribute(plain_link(path), "href"@) == Some(html::escaped(path)),
{
    let href = html::escaped(path);
    safety::law_escaped_text_is_inert(path);
    reveal_strlit("<a href=\"");
    reveal_strlit("<a href=");
    reveal_strlit("\">");
    reveal_strlit(">");
    reveal_strlit("href");
    let q = seq!['"'];
    assert("<a href=\""@ =~= "<a href="@ + q);
    assert("\">"@ =~= q + ">"@);
    assert(plain_link(path) =~= reading::with_value("<a href="@, href, ">"@));
    assert("<a href="@.skip(2) =~= seq![' '] + "href"@ + seq!['=']);
    reading::lemma_attribute_step("<a href="@, href, ">"@, "href"@);
    reading::lemma_valued_tag("<a href=\""@, href, "\">"@);
}

/// What is seen of a video where it cannot be played.
pub open spec fn video_text() -> Seq<char> {
    "浏览器无法播放此视频，"@ + "打开视频"@ + "。"@
}

/// What is seen of several videos.
pub open spec fn video_texts(n: nat) -> Seq<char>
    decreases n,
{
    if n == 0 {
        Seq::empty()
    } else {
        video_texts((n - 1) as nat) + video_text()
    }
}

/// What a video says.
proof fn lemma_video(path: Seq<char>)
    ensures
        reading::is_closed(note::video_html(path)),
        reading::visible(note::video_html(path)) == video_text(),
        reading::tags(note::video_html(path)) == seq![
            video_tag(path),
            plain_link(path),
            "</a>"@,
            "</video>"@,
        ],
{
    reveal_strlit("\">浏览器无法播放此视频，<a href=\"");
    reveal_strlit("浏览器无法播放此视频，");
    reveal_strlit("\">打开视频</a>。</video>");
    reveal_strlit("打开视频");
    reveal_strlit("。");
    reveal_strlit("\">");
    reveal_strlit("</a>");
    reveal_strlit("</video>");
    reveal_strlit("<a href=\"");
    let a =
        "<video class=\"feed-video\" controls playsinline preload=\"metadata\" aria-label=\"视频\" src=\""@;
    let src = html::escaped(path);
    let t1 = "浏览器无法播放此视频，"@;
    let t2 = "打开视频"@;
    let t3 = "。"@;
    let end = "\">"@;
    let open = "<a href=\""@;
    assert("\">浏览器无法播放此视频，<a href=\""@ =~= end + t1 + open);
    assert("\">打开视频</a>。</video>"@ =~= end + t2 + "</a>"@ + t3 + "</video>"@);
    let s1 = video_tag(path) + t1;
    let s2 = s1 + plain_link(path);
    let s3 = s2 + t2;
    let s4 = s3 + "</a>"@;
    let s5 = s4 + t3;
    let s6 = s5 + "</video>"@;
    assert(a + src + (end + t1 + open) =~= s1 + open);
    assert(s1 + open + src + (end + t2 + "</a>"@ + t3 + "</video>"@) =~= s6);
    lemma_video_tag(path);
    lemma_plain_link(path);
    reading::lemma_text_is_closed(t1);
    reading::lemma_text_is_closed(t2);
    reading::lemma_text_is_closed(t3);
    reading::lemma_plain_tag("</a>"@);
    reading::lemma_plain_tag("</video>"@);
    reading::lemma_closed_concat(video_tag(path), t1);
    reading::lemma_closed_concat(s1, plain_link(path));
    reading::lemma_closed_concat(s2, t2);
    reading::lemma_closed_concat(s3, "</a>"@);
    reading::lemma_closed_concat(s4, t3);
    reading::lemma_closed_concat(s5, "</video>"@);
    assert(reading::visible(s6) =~= video_text());
    assert(reading::tags(s6) =~= seq![video_tag(path), plain_link(path), "</a>"@, "</video>"@]);
}

/// A video that is in the store.
pub open spec fn is_stored_video(item: JsonView) -> bool {
    item is Text && note::valid_video(item->Text_0)
}

/// Four tags from a place on show a video, with a link to it for those who cannot
/// play it.
pub open spec fn shows_video(tags: Seq<Seq<char>>, i: int, path: Seq<char>) -> bool {
    &&& text::starts_with(tags[i], "<video "@)
    &&& reading::attribute(tags[i], "src"@) == Some(html::escaped(path))
    &&& reading::attribute(tags[i + 1], "href"@) == Some(html::escaped(path))
    &&& tags[i + 2] == "</a>"@
    &&& tags[i + 3] == "</video>"@
}

/// What videos in a row say.
proof fn lemma_video_list(items: Seq<JsonView>)
    ensures
        ({
            let videos = items.filter(|item: JsonView| is_stored_video(item));
            let all = note::video_list_html(items);
            &&& reading::is_closed(all)
            &&& reading::visible(all) == video_texts(videos.len())
            &&& reading::tags(all).len() == 4 * videos.len()
            &&& (all.len() == 0 <==> videos.len() == 0)
            &&& forall|k: int|
                #![trigger videos[k]]
                0 <= k < videos.len() ==> shows_video(reading::tags(all), 4 * k, videos[k]->Text_0)
        }),
    decreases items.len(),
{
    reveal(Seq::filter);
    let stored = |item: JsonView| is_stored_video(item);
    let videos = items.filter(stored);
    let all = note::video_list_html(items);
    if items.len() == 0 {
        reading::lemma_nothing_is_closed();
    } else {
        let front = items.drop_last();
        let before = note::video_list_html(front);
        lemma_video_list(front);
        if is_stored_video(items.last()) {
            let path = items.last()->Text_0;
            lemma_video(path);
            lemma_video_tag(path);
            lemma_plain_link(path);
            reading::lemma_closed_concat(before, note::video_html(path));
            let old_tags = reading::tags(before);
            let now = reading::tags(all);
            assert(now =~= old_tags + seq![video_tag(path), plain_link(path), "</a>"@, "</video>"@]);
            reveal_strlit("\">打开视频</a>。</video>");
            assert forall|k: int|
                #![trigger videos[k]]
                0 <= k < videos.len() implies shows_video(now, 4 * k, videos[k]->Text_0) by {
                if k < videos.len() - 1 {
                    assert(videos[k] == front.filter(stored)[k]);
                    assert(now[4 * k] == old_tags[4 * k]);
                    assert(now[4 * k + 1] == old_tags[4 * k + 1]);
                    assert(now[4 * k + 2] == old_tags[4 * k + 2]);
                    assert(now[4 * k + 3] == old_tags[4 * k + 3]);
                }
            }
        } else {
            assert(all =~= before);
        }
    }
}

/// All videos of a note that are in the store are shown, in order, and nothing else
/// of its list is. Where there is none, nothing is shown.
pub proof fn law_videos_are_shown_in_order(item: JsonView)
    ensures
        ({
            let videos = item.get("videos"@).elements().filter(|v: JsonView| is_stored_video(v));
            let all = note::videos_html(item);
            &&& reading::is_closed(all)
            &&& reading::visible(all) == video_texts(videos.len())
            &&& videos.len() == 0 <==> all == Seq::<char>::empty()
            &&& videos.len() > 0 ==> reading::tags(all).len() == 4 * videos.len() + 2
            &&& forall|k: int|
                #![trigger videos[k]]
                0 <= k < videos.len() ==> shows_video(
                    reading::tags(all),
                    4 * k + 1,
                    videos[k]->Text_0,
                )
        }),
{
    let items = item.get("videos"@).elements();
    let stored = |v: JsonView| is_stored_video(v);
    let videos = items.filter(stored);
    let list = note::video_list_html(items);
    let all = note::videos_html(item);
    lemma_video_list(items);
    if list.len() == 0 {
        reading::lemma_nothing_is_closed();
        assert(all =~= Seq::<char>::empty());
    } else {
        let open = "<div class=\"feed-videos\">"@;
        let close = "</div>"@;
        reveal_strlit("<div class=\"feed-videos\">");
        reveal_strlit("</div>");
        reading::lemma_plain_tag(open);
        reading::lemma_plain_tag(close);
        reading::lemma_closed_three(open, list, close);
        let inner = reading::tags(list);
        let now = reading::tags(all);
        assert(now =~= seq![open] + inner + seq![close]);
        assert(reading::visible(all) =~= video_texts(videos.len()));
        assert(all.len() > 0);
        assert forall|k: int|
            #![trigger videos[k]]
            0 <= k < videos.len() implies shows_video(now, 4 * k + 1, videos[k]->Text_0) by {
            assert(now[4 * k + 1] == inner[4 * k]);
            assert(now[4 * k + 2] == inner[4 * k + 1]);
            assert(now[4 * k + 3] == inner[4 * k + 2]);
            assert(now[4 * k + 4] == inner[4 * k + 3]);
        }
    }
}

/// Notes are dated in the zone of Shanghai, eight hours ahead of UTC, by the time of
/// their publication.
pub proof fn law_notes_are_dated_in_shanghai(item: JsonView)
    ensures
        note::note_date(item) == trusted::zoned_date(
            item.text("publishedAt"@),
            8 * 3600int,
            "%Y-%m-%d"@,
        ),
{
}

/// A date is shown with its year, month and day as numbers without leading zeros and
/// with slashes between them.
pub proof fn law_dates_are_shown_without_zeros(year: Seq<char>, month: Seq<char>, day: Seq<char>)
    requires
        number::all_digits(year) && year.len() > 0 && number::digits_value(year) <= u32::MAX,
        number::all_digits(month) && month.len() > 0 && number::digits_value(month) <= u32::MAX,
        number::all_digits(day) && day.len() > 0 && number::digits_value(day) <= u32::MAX,
    ensures
        note::shown_date(year + seq!['-'] + month + seq!['-'] + day) == number::decimal(
            number::digits_value(year),
        ) + seq!['/'] + number::decimal(number::digits_value(month)) + seq!['/'] + number::decimal(
            number::digits_value(day),
        ),
        note::numeric_date(year + seq!['-'] + month + seq!['-'] + day),
{
    let date = year + seq!['-'] + month + seq!['-'] + day;
    let parts = seq![year, month, day];
    let slash = seq!['/'];
    reveal_strlit("/");
    assert("/"@ =~= slash);
    assert(parts.drop_last() =~= seq![year, month]);
    assert(parts.drop_last().drop_last() =~= seq![year]);
    reveal_with_fuel(text::join, 3);
    assert(text::join(parts, seq!['-']) =~= date);
    assert forall|i: int| 0 <= i < parts.len() implies !(#[trigger] parts[i]).contains('-') by {
        assert(number::all_digits(parts[i]));
    }
    text::lemma_split_join(parts, '-');
    assert('0' <= year[0] <= '9' && '0' <= month[0] <= '9' && '0' <= day[0] <= '9');
    let short = parts.map_values(|part: Seq<char>| note::short_part(part));
    let y = number::decimal(number::digits_value(year));
    let m = number::decimal(number::digits_value(month));
    let d = number::decimal(number::digits_value(day));
    assert(short =~= seq![y, m, d]);
    assert(short.drop_last() =~= seq![y, m]);
    assert(short.drop_last().drop_last() =~= seq![y]);
    assert(text::join(short, slash) =~= y + slash + m + slash + d);
}

/// A date can be shown exactly where its parts between the hyphens are numbers of at
/// most 32 bits, and is then shown as those numbers, without leading zeros and with
/// slashes between them. A note that has no date needs none.
pub proof fn law_dates_are_shown_part_by_part(parts: Seq<Seq<char>>, item: JsonView)
    requires
        parts.len() > 0,
        forall|i: int| 0 <= i < parts.len() ==> !(#[trigger] parts[i]).contains('-'),
    ensures
        note::numeric_date(text::join(parts, seq!['-'])) <==> forall|i: int|
            0 <= i < parts.len() ==> number::parsed_number(#[trigger] parts[i], 4294967295) is Some,
        note::shown_date(text::join(parts, seq!['-'])) == text::join(
            parts.map_values(
                |part: Seq<char>| number::decimal(number::parsed_number(part, 4294967295)->0),
            ),
            seq!['/'],
        ),
        note::showable(item) <==> note::note_date(item) is None || note::numeric_date(
            note::note_date(item)->0,
        ),
{
    text::lemma_split_join(parts, '-');
    reveal_strlit("/");
    assert("/"@ =~= seq!['/']);
    assert(parts.map_values(|part: Seq<char>| note::short_part(part)) =~= parts.map_values(
        |part: Seq<char>| number::decimal(number::parsed_number(part, 4294967295)->0),
    ));
}

/// Blanks at the back of a text go, and no more.
proof fn lemma_blanks_go(s: Seq<char>, blanks: Seq<char>)
    requires
        forall|i: int| 0 <= i < blanks.len() ==> note::is_blank(#[trigger] blanks[i]),
        s.len() > 0 && !note::is_blank(s.last()),
    ensures
        note::trim_blank_end(s + blanks) == s,
    decreases blanks.len(),
{
    let all = s + blanks;
    if blanks.len() == 0 {
        assert(all =~= s);
    } else {
        assert(all.last() == blanks.last());
        assert(note::is_blank(blanks[blanks.len() - 1]));
        assert(all.drop_last() =~= s + blanks.drop_last());
        lemma_blanks_go(s, blanks.drop_last());
    }
}

/// A text begins like the short links that Weibo puts for videos.
pub open spec fn is_short_link(s: Seq<char>) -> bool {
    text::starts_with(s, "http://t.cn/"@) || text::starts_with(s, "https://t.cn/"@)
}

/// The last place of a text is known where it does not stand behind it.
proof fn lemma_rfind_at(s: Seq<char>, p: Seq<char>, i: int)
    requires
        0 <= i <= s.len(),
        text::starts_with(s.skip(i), p),
        forall|j: int| i < j <= s.len() ==> !text::starts_with(#[trigger] s.skip(j), p),
    ensures
        text::rfind(s, p) == Some(i),
{
    text::lemma_rfind(s, p);
    match text::rfind(s, p) {
        Some(k) => {
            if k < i {
                assert(!text::starts_with(s.skip(i), p));
            } else if k > i {
                assert(!text::starts_with(s.skip(k), p));
            }
        },
        None => {
            assert(!text::starts_with(s.skip(i), p));
        },
    }
}

/// The short link to its video at the end of a note, with blanks behind it or not, is
/// not shown where the note has a video; everything before it is. A note without
/// video, or without any address, is shown as it is.
pub proof fn law_links_to_videos_are_cut(
    content: Seq<char>,
    link: Seq<char>,
    blanks: Seq<char>,
    raw: Seq<char>,
    has_video: bool,
)
    requires
        is_short_link(link),
        !text::contains(link.skip(1) + blanks, "http"@),
        forall|i: int| 0 <= i < link.len() ==> !text::is_space(#[trigger] link[i]),
        link.last() != '\u{200b}' && link.last() != '\u{200c}' && link.last() != '\u{200d}',
        forall|i: int|
            0 <= i < blanks.len() ==> text::is_space(#[trigger] blanks[i]) || blanks[i]
                == '\u{200b}' || blanks[i] == '\u{200c}' || blanks[i] == '\u{200d}',
    ensures
        note::note_content(content + link + blanks, true) == content,
        note::note_content(raw, false) == raw,
        !text::contains(raw, "http"@) ==> note::note_content(raw, has_video) == raw,
{
    let http = "http"@;
    let all = content + link + blanks;
    let i = content.len() as int;
    reveal_strlit("http");
    reveal_strlit("http://t.cn/");
    reveal_strlit("https://t.cn/");
    let tail = all.skip(i);
    assert(tail =~= link + blanks);
    let short = if text::starts_with(link, "http://t.cn/"@) {
        "http://t.cn/"@
    } else {
        "https://t.cn/"@
    };
    let n = short.len() as int;
    assert(link.take(n) == short);
    assert(tail.take(4) =~= link.take(n).take(4));
    assert(short.take(4) =~= http);
    let rest = link.skip(1) + blanks;
    text::lemma_find(rest, http);
    assert forall|j: int| i < j <= all.len() implies !text::starts_with(#[trigger] all.skip(j), http) by {
        assert(all.skip(j) =~= rest.skip(j - i - 1));
    }
    lemma_rfind_at(all, http, i);
    assert(link.take(n)[0] == 'h');
    assert(!text::is_space(link[link.len() - 1]));
    assert(tail[0] == link[0]);
    assert(note::trim_blank_start(tail) == tail);
    assert forall|k: int| 0 <= k < blanks.len() implies note::is_blank(#[trigger] blanks[k]) by {}
    lemma_blanks_go(link, blanks);
    assert(!note::has_space(link)) by {
        if note::has_space(link) {
            let k = choose|k: int| 0 <= k < link.len() && text::is_space(#[trigger] link[k]);
        }
    }
    assert(note::is_video_link(tail));
    assert(all.take(i) =~= content);
    text::lemma_rfind(raw, http);
    text::lemma_find(raw, http);
    if !text::contains(raw, http) {
        if let Some(k) = text::rfind(raw, http) {
            assert(!text::starts_with(raw.skip(k), http));
        }
    }
}

/// What is trimmed of blanks at its back is a text before blanks.
proof fn lemma_trimmed_blanks(s: Seq<char>)
    ensures
        note::trim_blank_end(s).len() <= s.len(),
        s.take(note::trim_blank_end(s).len() as int) == note::trim_blank_end(s),
        forall|i: int|
            note::trim_blank_end(s).len() <= i < s.len() ==> note::is_blank(#[trigger] s[i]),
    decreases s.len(),
{
    if s.len() > 0 && note::is_blank(s.last()) {
        let front = s.drop_last();
        lemma_trimmed_blanks(front);
        let n = note::trim_blank_end(s).len() as int;
        assert(s.take(n) =~= front.take(n));
        assert forall|i: int| n <= i < s.len() implies note::is_blank(#[trigger] s[i]) by {
            if i < front.len() {
                assert(s[i] == front[i]);
            }
        }
    } else {
        assert(s.take(s.len() as int) =~= s);
    }
}

/// Nothing of a note is ever cut but one short link at its end, and that only where
/// the note has a video: behind the first white space of what is cut there are
/// blanks alone.
pub proof fn law_nothing_else_is_cut(raw: Seq<char>, has_video: bool)
    ensures
        ({
            let content = note::note_content(raw, has_video);
            let tail = raw.skip(content.len() as int);
            &&& text::starts_with(raw, content)
            &&& content == raw || (has_video && is_short_link(tail) && forall|i: int, j: int|
                0 <= i <= j < tail.len() && text::is_space(#[trigger] tail[i]) ==> text::is_space(
                    #[trigger] tail[j],
                ) || tail[j] == '\u{200b}' || tail[j] == '\u{200c}' || tail[j] == '\u{200d}')
        }),
{
    let content = note::note_content(raw, has_video);
    text::lemma_rfind(raw, "http"@);
    reveal_strlit("http");
    reveal_strlit("http://t.cn/");
    reveal_strlit("https://t.cn/");
    assert(raw.take(content.len() as int) =~= content);
    if content != raw {
        let i = text::rfind(raw, "http"@)->0;
        let tail = raw.skip(i);
        assert(tail.take(4)[0] == 'h');
        assert(note::trim_blank_start(tail) == tail);
        let link = note::trim_blank_end(tail);
        lemma_trimmed_blanks(tail);
        let n = link.len() as int;
        assert(is_short_link(tail)) by {
            if text::starts_with(link, "http://t.cn/"@) {
                assert(tail.take(12) =~= link.take(12));
            } else {
                assert(tail.take(13) =~= link.take(13));
            }
        }
        assert forall|a: int, b: int|
            0 <= a <= b < tail.len() && text::is_space(#[trigger] tail[a]) implies text::is_space(
            #[trigger] tail[b],
        ) || tail[b] == '\u{200b}' || tail[b] == '\u{200c}' || tail[b] == '\u{200d}' by {
            if b < n {
                assert(link[a] == tail[a]);
                assert(note::has_space(link));
            }
            assert(note::is_blank(tail[b]));
        }
    }
}

/// The assets of an article are served under its name: every source and every link
/// that names one relative to the article leads there. HTML that names none stays as
/// it is.
pub proof fn law_assets_are_served_under_their_article(clean: Seq<char>, name: Seq<char>)
    requires
        !text::starts_with(name, "GitHub blog:"@),
    ensures
        ({
            let place = "/content-assets/"@ + html::escaped(name) + "/"@;
            let shown = note::article_html(clean, "GitHub blog:"@ + name);
            &&& shown == text::replace(
                text::replace(clean, "src=\"assets/"@, "src=\""@ + place),
                "href=\"assets/"@,
                "href=\""@ + place,
            )
            &&& shown == note::article_html(clean, name)
            &&& !text::contains(clean, "src=\"assets/"@) && !text::contains(
                clean,
                "href=\"assets/"@,
            ) ==> shown == clean
        }),
{
    reveal_strlit("GitHub blog:");
    text::law_prefixes_go_from_the_front(name, "GitHub blog:"@);
    let place = "/content-assets/"@ + html::escaped(name) + "/"@;
    if !text::contains(clean, "src=\"assets/"@) && !text::contains(clean, "href=\"assets/"@) {
        text::lemma_replace_nothing(clean, "src=\"assets/"@, "src=\""@ + place);
        text::lemma_replace_nothing(clean, "href=\"assets/"@, "href=\""@ + place);
    }
}

/// The mark of its source goes from the id of an article as often as it stands at the
/// front, and articles whose ids differ in that alone have the same assets.
pub proof fn law_article_names_have_no_mark(id: Seq<char>, clean: Seq<char>)
    ensures
        note::article_name("GitHub blog:"@ + id) == note::article_name(id),
        !text::starts_with(id, "GitHub blog:"@) ==> note::article_name(id) == id,
        note::article_html(clean, id) == note::article_html(clean, note::article_name(id)),
        note::blog_label(id) == note::blog_label(note::article_name(id)),
{
    reveal_strlit("GitHub blog:");
    text::law_prefixes_go_from_the_front(id, "GitHub blog:"@);
    lemma_name_stays(id);
}

proof fn lemma_name_stays(id: Seq<char>)
    ensures
        note::article_name(note::article_name(id)) == note::article_name(id),
    decreases id.len(),
{
    reveal_strlit("GitHub blog:");
    let mark = "GitHub blog:"@;
    if text::starts_with(id, mark) {
        lemma_name_stays(id.skip(mark.len() as int));
    }
}

/// How a picture, a video and an emoji are written: pictures are loaded when they come
/// into view and have a size of their own, videos load nothing but their description
/// until they are played, and emoji are small and tell their host nothing.
pub proof fn law_media_are_written_out(path: Seq<char>, n: nat, token: Seq<char>, url: Seq<char>)
    ensures
        note::image_html(path, n) == "<a href=\""@ + html::escaped(path)
            + "\" class=\"feed-image\" aria-label=\"放大第 "@ + number::decimal(n)
            + " 张配图\"><img src=\""@ + html::escaped(path) + "\" alt=\"配图 "@ + number::decimal(n)
            + "\" loading=\"lazy\" width=\"160\" height=\"160\" /></a>"@,
        note::video_html(path)
            == "<video class=\"feed-video\" controls playsinline preload=\"metadata\" aria-label=\"视频\" src=\""@
            + html::escaped(path) + "\">浏览器无法播放此视频，<a href=\""@ + html::escaped(path)
            + "\">打开视频</a>。</video>"@,
        html::emoji_html(token, url) == "<img class=\"weibo-emoji\" src=\""@ + html::escaped(url)
            + "\" alt=\""@ + html::escaped(token) + "\" title=\""@ + html::escaped(token)
            + "\" width=\"20\" height=\"20\" loading=\"lazy\" referrerpolicy=\"no-referrer\">"@,
{
}

/// The place of the assets of an article keeps clear of what names them.
proof fn lemma_place_keeps_clear(open: Seq<char>, name: Seq<char>, w: Seq<char>)
    requires
        open == "src=\""@ || open == "href=\""@,
        w == "src=\"assets/"@ || w == "href=\"assets/"@,
    ensures
        text::keeps_clear(open + ("/content-assets/"@ + html::escaped(name) + "/"@), w),
{
    let safe = html::escaped(name);
    let place = "/content-assets/"@ + safe + "/"@;
    let r = open + place;
    safety::law_escaped_text_is_inert(name);
    reveal_strlit("src=\"");
    reveal_strlit("href=\"");
    reveal_strlit("src=\"assets/");
    reveal_strlit("href=\"assets/");
    reveal_strlit("/content-assets/");
    reveal_strlit("/");
    let k = open.len() as int;
    let n = w.len() as int;
    assert forall|i: int| k <= i < r.len() implies #[trigger] r[i] != '"' by {
        assert(r[i] == place[i - k]);
        if i - k < 16 {
            assert(place[i - k] == "/content-assets/"@[i - k]);
        } else if i - k < 16 + safe.len() {
            assert(place[i - k] == safe[i - k - 16]);
        }
    }
    assert(r[k] == place[0] && place[0] == '/');
    text::lemma_find(r, w);
    if let Some(i) = text::find(r, w) {
        let found = r.skip(i).take(n);
        let q = n - 8;
        assert(w[q] == '"' && w[q + 1] == 'a');
        assert(found[q] == r[i + q] && found[q + 1] == r[i + q + 1]);
        assert(i + q < k);
        assert(open[i + q] == '"');
        assert(i + q == k - 1);
    }
    assert forall|m: int| 0 < m < n implies !text::ends_with(r, #[trigger] w.take(m)) by {
        if text::ends_with(r, w.take(m)) {
            let tail = r.skip(r.len() - m);
            assert(tail[m - 1] == w.take(m)[m - 1]);
            assert(r.last() == '/');
            assert(w[m - 1] != '/');
        }
    }
    assert forall|m: int| 0 < m < n implies !text::starts_with(r, #[trigger] w.skip(m)) by {
        if text::starts_with(r, w.skip(m)) {
            let front = r.take(n - m);
            assert(front[0] == w.skip(m)[0] && front[0] == open[0]);
            assert(w[m] == open[0]);
            assert(m < n - 1);
            assert(front[1] == w.skip(m)[1] && front[1] == open[1]);
            assert(w[m + 1] == open[1]);
        }
    }
}

/// No source and no link of an article names an asset relative to the article any
/// more: all of them lead to the place where the assets are served.
pub proof fn law_no_asset_is_left_relative(clean: Seq<char>, id: Seq<char>)
    ensures
        !text::contains(note::article_html(clean, id), "src=\"assets/"@),
        !text::contains(note::article_html(clean, id), "href=\"assets/"@),
{
    let name = note::article_name(id);
    let place = "/content-assets/"@ + html::escaped(name) + "/"@;
    let src = "src=\"assets/"@;
    let href = "href=\"assets/"@;
    reveal_strlit("src=\"assets/");
    reveal_strlit("href=\"assets/");
    lemma_place_keeps_clear("src=\""@, name, src);
    lemma_place_keeps_clear("href=\""@, name, src);
    lemma_place_keeps_clear("href=\""@, name, href);
    let first = text::replace(clean, src, "src=\""@ + place);
    text::law_replacing_leaves_nothing(clean, src, "src=\""@ + place, src);
    text::law_replacing_leaves_nothing(first, href, "href=\""@ + place, src);
    text::law_replacing_leaves_nothing(first, href, "href=\""@ + place, href);
}

} // verus!
