//! What becomes of the notes that a note quotes: on the page and in Markdown nothing
//! of them is lost.
use vstd::prelude::*;

use crate::html;
use crate::json::JsonView;
use crate::reading;
use crate::safety;
use crate::text;
use crate::trusted;

verus! {

/// The link to where a note was first published.
spec fn original_tag(url: Seq<char>) -> Seq<char> {
    "<a class=\"feed-original\" href=\""@ + html::escaped(url)
        + "\" target=\"_blank\" rel=\"noopener\">"@
}

/// The scheme of a web address.
pub open spec fn is_web_scheme(scheme: Option<Seq<char>>) -> bool {
    scheme == Some("http"@) || scheme == Some("https"@)
}

/// A note that was first published under a web address links there, with a text that
/// says so; any other has no such link.
pub proof fn law_originals_are_linked(url: Seq<char>, scheme: Option<Seq<char>>)
    ensures
        reading::is_closed(html::original_html(url, scheme)),
        !is_web_scheme(scheme) ==> html::original_html(url, scheme) == Seq::<char>::empty(),
        is_web_scheme(scheme) ==> {
            let tags = reading::tags(html::original_html(url, scheme));
            &&& reading::visible(html::original_html(url, scheme)) == "原文"@
            &&& tags.len() == 2
            &&& reading::attribute(tags[0], "href"@) == Some(html::escaped(url))
            &&& reading::attribute(tags[0], "target"@) == Some("_blank"@)
            &&& tags[1] == "</a>"@
        },
{
    if !is_web_scheme(scheme) {
        reading::lemma_nothing_is_closed();
    } else {
        let href = html::escaped(url);
        safety::law_escaped_text_is_inert(url);
        reveal_strlit("<a class=\"feed-original\" href=\"");
        reveal_strlit("<a class=");
        reveal_strlit("feed-original");
        reveal_strlit(" href=");
        reveal_strlit("\" target=\"_blank\" rel=\"noopener\">原文</a>");
        reveal_strlit("\" target=\"_blank\" rel=\"noopener\">");
        reveal_strlit(" target=");
        reveal_strlit("_blank");
        reveal_strlit(" rel=\"noopener\">");
        reveal_strlit("原文");
        reveal_strlit("</a>");
        reveal_strlit("href");
        reveal_strlit("target");
        let q = seq!['"'];
        let a = "<a class=\"feed-original\" href=\""@;
        let b = "\" target=\"_blank\" rel=\"noopener\">"@;
        let last = " rel=\"noopener\">"@;
        assert("\" target=\"_blank\" rel=\"noopener\">原文</a>"@ =~= b + "原文"@ + "</a>"@);
        let tag = original_tag(url);
        assert(html::original_html(url, scheme) =~= tag + "原文"@ + "</a>"@);
        assert(a =~= "<a class="@ + q + "feed-original"@ + q + " href="@ + q);
        let r0 = reading::with_value(" target="@, "_blank"@, last);
        assert(b =~= q + r0);
        let r1 = reading::with_value(" href="@, href, r0);
        assert(tag =~= reading::with_value("<a class="@, "feed-original"@, r1));
        assert(" href="@.skip(0) =~= seq![' '] + "href"@ + seq!['=']);
        assert(" target="@.skip(0) =~= seq![' '] + "target"@ + seq!['=']);
        reading::lemma_attribute_step("<a class="@, "feed-original"@, r1, "href"@);
        reading::lemma_attribute_step("<a class="@, "feed-original"@, r1, "target"@);
        reading::lemma_other_name("<a class="@, "href"@, 1);
        reading::lemma_other_name("<a class="@, "target"@, 1);
        reading::lemma_attribute_step(" href="@, href, r0, "href"@);
        reading::lemma_attribute_step(" href="@, href, r0, "target"@);
        reading::lemma_other_name(" href="@, "target"@, 1);
        reading::lemma_attribute_step(" target="@, "_blank"@, last, "target"@);
        reading::lemma_valued_tag(a, href, b);
        reading::lemma_text_is_closed("原文"@);
        reading::lemma_plain_tag("</a>"@);
        reading::lemma_closed_three(tag, "原文"@, "</a>"@);
        let all = html::original_html(url, scheme);
        assert(reading::visible(all) =~= "原文"@);
        assert(reading::tags(all) =~= seq![tag, "</a>"@]);
    }
}

/// What is said of a quoted note of which only a part was kept.
spec fn warning(quote: JsonView) -> Seq<char> {
    if quote.flag("partial"@) {
        "<small>归档引用片段，可能不完整</small>"@
    } else {
        Seq::empty()
    }
}

/// What is seen of it.
pub open spec fn warning_text(quote: JsonView) -> Seq<char> {
    if quote.flag("partial"@) {
        "归档引用片段，可能不完整"@
    } else {
        Seq::empty()
    }
}

/// The tags around it.
pub open spec fn warning_tags(quote: JsonView) -> Seq<Seq<char>> {
    if quote.flag("partial"@) {
        seq!["<small>"@, "</small>"@]
    } else {
        Seq::empty()
    }
}

proof fn lemma_warning(quote: JsonView)
    ensures
        reading::is_closed(warning(quote)),
        reading::visible(warning(quote)) == warning_text(quote),
        reading::tags(warning(quote)) == warning_tags(quote),
{
    if quote.flag("partial"@) {
        reveal_strlit("<small>归档引用片段，可能不完整</small>");
        reveal_strlit("归档引用片段，可能不完整");
        reveal_strlit("<small>");
        reveal_strlit("</small>");
        let t = "归档引用片段，可能不完整"@;
        assert(warning(quote) =~= "<small>"@ + t + "</small>"@);
        reading::lemma_plain_tag("<small>"@);
        reading::lemma_plain_tag("</small>"@);
        reading::lemma_text_is_closed(t);
        reading::lemma_closed_three("<small>"@, t, "</small>"@);
        assert(reading::visible(warning(quote)) =~= t);
        assert(reading::tags(warning(quote)) =~= seq!["<small>"@, "</small>"@]);
    } else {
        reading::lemma_nothing_is_closed();
    }
}

/// One quoted note on the page.
proof fn lemma_quote_block(quote: JsonView, emojis: JsonView, nested: Seq<char>)
    requires
        reading::is_closed(nested),
    ensures
        ({
            let body = html::social_html(quote.text("text"@), quote.text("source"@), emojis);
            let url = quote.text("url"@);
            let original = html::original_html(url, html::url_scheme(url));
            let block = html::quote_block(quote, emojis, nested);
            &&& reading::is_closed(block)
            &&& reading::visible(block) == html::escaped(quote.text("text"@)) + warning_text(quote)
                + reading::visible(original) + reading::visible(nested)
            &&& reading::tags(block) == seq!["<blockquote class=\"feed-quote\">"@, "<p>"@]
                + reading::tags(body) + seq!["</p>"@] + warning_tags(quote) + reading::tags(
                original,
            ) + reading::tags(nested) + seq!["</blockquote>"@]
        }),
{
    let body = html::social_html(quote.text("text"@), quote.text("source"@), emojis);
    let url = quote.text("url"@);
    let original = html::original_html(url, html::url_scheme(url));
    let small = warning(quote);
    let block = html::quote_block(quote, emojis, nested);
    let open = "<blockquote class=\"feed-quote\">"@;
    let p = "<p>"@;
    let close = "</blockquote>"@;
    reveal_strlit("<blockquote class=\"feed-quote\"><p>");
    reveal_strlit("<blockquote class=\"feed-quote\">");
    reveal_strlit("<p>");
    reveal_strlit("</p>");
    reveal_strlit("</blockquote>");
    assert("<blockquote class=\"feed-quote\"><p>"@ =~= open + p);
    reading::law_note_text_is_seen_whole(quote.text("text"@), quote.text("source"@), emojis);
    law_originals_are_linked(url, html::url_scheme(url));
    lemma_warning(quote);
    reading::lemma_plain_tag(open);
    reading::lemma_plain_tag(p);
    reading::lemma_plain_tag("</p>"@);
    reading::lemma_plain_tag(close);
    let s0 = open + p;
    let s1 = s0 + body;
    let s2 = s1 + "</p>"@;
    let s3 = s2 + small;
    let s4 = s3 + original;
    let s5 = s4 + nested;
    reading::lemma_closed_concat(open, p);
    reading::lemma_closed_concat(s0, body);
    reading::lemma_closed_concat(s1, "</p>"@);
    reading::lemma_closed_concat(s2, small);
    reading::lemma_closed_concat(s3, original);
    reading::lemma_closed_concat(s4, nested);
    reading::lemma_closed_concat(s5, close);
    assert(block == s5 + close);
    assert(reading::visible(s2) =~= html::escaped(quote.text("text"@)));
    assert(reading::visible(block) =~= html::escaped(quote.text("text"@)) + warning_text(quote)
        + reading::visible(original) + reading::visible(nested));
    assert(reading::tags(s0) =~= seq![open, p]);
}

/// Quoted notes on the page are closed.
pub proof fn lemma_quotes_are_closed(items: Seq<JsonView>, emojis: JsonView, depth: nat)
    ensures
        reading::is_closed(html::quotes_as_html(items, emojis, depth)),
    decreases 33 - depth, items.len(),
{
    if depth > 32 || items.len() == 0 {
        reading::lemma_nothing_is_closed();
    } else {
        let quote = items.last();
        let front = html::quotes_as_html(items.drop_last(), emojis, depth);
        lemma_quotes_are_closed(items.drop_last(), emojis, depth);
        if !quote.flag("unavailable"@) {
            let inner = quote.get("quotes"@).elements();
            let nested = html::quotes_as_html(inner, emojis, depth + 1);
            lemma_quotes_are_closed(inner, emojis, depth + 1);
            lemma_quote_block(quote, emojis, nested);
            reading::lemma_closed_concat(front, html::quote_block(quote, emojis, nested));
        }
    }
}

/// Quoted notes stand one after another, on the page and in Markdown: those of two
/// lists are those of the first and then those of the second, and no notes are
/// nothing.
pub proof fn law_quotes_stand_in_a_row(
    a: Seq<JsonView>,
    b: Seq<JsonView>,
    emojis: JsonView,
    depth: nat,
)
    ensures
        html::quotes_as_html(a + b, emojis, depth) == html::quotes_as_html(a, emojis, depth)
            + html::quotes_as_html(b, emojis, depth),
        html::quotes_as_md(a + b, depth) == html::quotes_as_md(a, depth) + html::quotes_as_md(
            b,
            depth,
        ),
        html::quotes_as_html(Seq::empty(), emojis, depth) == Seq::<char>::empty(),
        html::quotes_as_md(Seq::empty(), depth) == Seq::<char>::empty(),
    decreases b.len(),
{
    let none = Seq::<char>::empty();
    if depth > 32 {
        assert(none + none =~= none);
    } else if b.len() == 0 {
        assert(a + b =~= a);
        let x = html::quotes_as_html(a, emojis, depth);
        let y = html::quotes_as_md(a, depth);
        assert(x + none =~= x);
        assert(y + none =~= y);
    } else {
        let front = b.drop_last();
        let quote = b.last();
        let all = a + b;
        assert(all.drop_last() =~= a + front);
        assert(all.last() == quote);
        law_quotes_stand_in_a_row(a, front, emojis, depth);
        if !quote.flag("unavailable"@) {
            let inner = quote.get("quotes"@).elements();
            let x = html::quotes_as_html(a, emojis, depth);
            let y = html::quotes_as_html(front, emojis, depth);
            let z = html::quote_block(quote, emojis, html::quotes_as_html(inner, emojis, depth + 1));
            assert(x + y + z =~= x + (y + z));
            let body = quote.text("text"@) + "\n\n"@ + html::quotes_as_md(inner, depth + 1);
            let u = html::quotes_as_md(a, depth);
            let v = html::quotes_as_md(front, depth);
            let w = html::quoted_lines(text::lines(text::trim(body)));
            assert(u + v + w + "\n"@ =~= u + (v + w + "\n"@));
        }
    }
}

/// A quoted note is seen whole: its text, that it is not complete where only a part
/// was kept, the link to where it was first published, and then the notes that it
/// quotes itself, all inside one block. One that is marked unavailable is not shown,
/// and nothing is that is nested more than 32 deep.
pub proof fn law_quotes_are_seen_whole(quote: JsonView, emojis: JsonView, depth: nat)
    ensures
        ({
            let shown = html::quotes_as_html(seq![quote], emojis, depth);
            let body = html::social_html(quote.text("text"@), quote.text("source"@), emojis);
            let url = quote.text("url"@);
            let original = html::original_html(url, html::url_scheme(url));
            let nested = html::quotes_as_html(
                quote.get("quotes"@).elements(),
                emojis,
                depth + 1,
            );
            &&& reading::is_closed(shown)
            &&& depth > 32 || quote.flag("unavailable"@) ==> shown == Seq::<char>::empty()
            &&& depth <= 32 && !quote.flag("unavailable"@) ==> reading::visible(shown)
                == html::escaped(quote.text("text"@)) + warning_text(quote) + reading::visible(
                original,
            ) + reading::visible(nested)
            &&& depth <= 32 && !quote.flag("unavailable"@) ==> reading::tags(shown) == seq![
                "<blockquote class=\"feed-quote\">"@,
                "<p>"@,
            ] + reading::tags(body) + seq!["</p>"@] + warning_tags(quote) + reading::tags(original)
                + reading::tags(nested) + seq!["</blockquote>"@]
        }),
{
    let one = seq![quote];
    let shown = html::quotes_as_html(one, emojis, depth);
    lemma_quotes_are_closed(one, emojis, depth);
    assert(one.drop_last() =~= Seq::<JsonView>::empty());
    assert(one.last() == quote);
    assert(html::quotes_as_html(one.drop_last(), emojis, depth) == Seq::<char>::empty());
    if depth <= 32 && !quote.flag("unavailable"@) {
        let inner = quote.get("quotes"@).elements();
        let nested = html::quotes_as_html(inner, emojis, depth + 1);
        lemma_quotes_are_closed(inner, emojis, depth + 1);
        lemma_quote_block(quote, emojis, nested);
        let block = html::quote_block(quote, emojis, nested);
        assert(shown =~= block);
    }
}

/// Quoted lines are read as lines behind their marks.
proof fn lemma_quoted_lines(list: Seq<Seq<char>>)
    requires
        forall|i: int| 0 <= i < list.len() ==> !(#[trigger] list[i]).contains('\n'),
    ensures
        text::split(html::quoted_lines(list), '\n') == list.map_values(
            |line: Seq<char>| seq!['>', ' '] + line,
        ).push(Seq::empty()),
    decreases list.len(),
{
    let marked = |line: Seq<char>| seq!['>', ' '] + line;
    let all = html::quoted_lines(list);
    let none = Seq::<char>::empty();
    reveal_strlit("> ");
    reveal_strlit("\n");
    assert("> "@ =~= seq!['>', ' ']);
    assert("\n"@ =~= seq!['\n']);
    if list.len() == 0 {
        assert(list.map_values(marked).push(none) =~= seq![none]);
        assert(text::split(none, '\n') =~= seq![none]);
    } else {
        let front = list.drop_last();
        let last = seq!['>', ' '] + list.last();
        assert(list[list.len() - 1] == list.last());
        assert forall|i: int| 0 <= i < last.len() implies #[trigger] last[i] != '\n' by {
            if i >= 2 {
                assert(last[i] == list.last()[i - 2]);
                assert(list.last().contains(list.last()[i - 2]));
            }
        }
        assert forall|i: int| 0 <= i < front.len() implies !(#[trigger] front[i]).contains('\n') by {
            assert(front[i] == list[i]);
        }
        lemma_quoted_lines(front);
        let before = html::quoted_lines(front);
        lemma_line_behind(before, last);
        assert(all =~= before + last + seq!['\n']);
        text::lemma_split_push(before + last, '\n', none);
        assert(before + last + seq!['\n'] + none =~= all);
        let parts = text::split(before, '\n');
        assert(parts.drop_last() =~= front.map_values(marked));
        assert(list.map_values(marked) =~= front.map_values(marked).push(last));
    }
}

/// A line that follows a line feed is the last part.
proof fn lemma_line_behind(before: Seq<char>, line: Seq<char>)
    requires
        text::split(before, '\n').last() == Seq::<char>::empty(),
        !line.contains('\n'),
    ensures
        text::split(before + line, '\n') == text::split(before, '\n').drop_last().push(line),
    decreases before.len(),
{
    let parts = text::split(before, '\n');
    text::lemma_index_of(before, '\n');
    let i = text::index_of(before, '\n');
    let all = before + line;
    if i < before.len() {
        assert(all[i] == '\n');
        assert forall|j: int| 0 <= j < i implies all[j] != '\n' by {
            assert(all[j] == before[j]);
        }
        text::lemma_index_of_at(all, '\n', i);
        let rest = before.skip(i + 1);
        let tail = text::split(rest, '\n');
        text::lemma_split_parts(rest, '\n');
        assert(parts.last() == tail.last());
        lemma_line_behind(rest, line);
        assert(all.skip(i + 1) =~= rest + line);
        assert(all.take(i) =~= before.take(i));
        assert(seq![before.take(i)] + tail.drop_last().push(line) =~= parts.drop_last().push(line));
    } else {
        assert(parts == seq![before]);
        assert(before =~= Seq::<char>::empty());
        assert(all =~= line);
        assert forall|j: int| 0 <= j < line.len() implies line[j] != '\n' by {
            assert(line.contains(line[j]));
        }
        text::lemma_index_of_at(line, '\n', line.len() as int);
        assert(parts.drop_last().push(line) =~= seq![line]);
    }
}

/// No line holds a line feed.
proof fn lemma_lines_are_lines(s: Seq<char>)
    ensures
        forall|i: int| 0 <= i < text::lines(s).len() ==> !(#[trigger] text::lines(s)[i]).contains('\n'),
    decreases s.len(),
{
    let list = text::lines(s);
    if s.len() > 0 {
        text::lemma_index_of(s, '\n');
        let i = text::index_of(s, '\n');
        if i < s.len() {
            lemma_lines_are_lines(s.skip(i + 1));
            let first = text::without_return(s.take(i));
            assert forall|k: int| 0 <= k < list.len() implies !(#[trigger] list[k]).contains('\n') by {
                if k == 0 {
                    assert(list[0] == first);
                    assert forall|j: int| 0 <= j < first.len() implies first[j] != '\n' by {
                        assert(first[j] == s[j]);
                    }
                } else {
                    assert(list[k] == text::lines(s.skip(i + 1))[k - 1]);
                }
            }
        }
    }
}

/// A quoted note in Markdown is its text and then the notes that it quotes itself,
/// without white space at the ends, each line behind a mark and a free line at the
/// end. One that is marked unavailable is left out, and so is what is nested more
/// than 32 deep.
pub proof fn law_quotes_keep_their_lines(quote: JsonView, depth: nat)
    ensures
        ({
            let shown = html::quotes_as_md(seq![quote], depth);
            let nested = html::quotes_as_md(quote.get("quotes"@).elements(), depth + 1);
            let body = text::trim(quote.text("text"@) + seq!['\n', '\n'] + nested);
            let none = Seq::<char>::empty();
            &&& depth > 32 || quote.flag("unavailable"@) ==> shown == none
            &&& depth <= 32 && !quote.flag("unavailable"@) ==> text::split(shown, '\n')
                == text::lines(body).map_values(|line: Seq<char>| seq!['>', ' '] + line).push(
                none,
            ).push(none)
        }),
{
    let one = seq![quote];
    let none = Seq::<char>::empty();
    let shown = html::quotes_as_md(one, depth);
    assert(one.drop_last() =~= Seq::<JsonView>::empty());
    assert(one.last() == quote);
    assert(html::quotes_as_md(one.drop_last(), depth) == none);
    if depth <= 32 && !quote.flag("unavailable"@) {
        let nested = html::quotes_as_md(quote.get("quotes"@).elements(), depth + 1);
        reveal_strlit("\n\n");
        reveal_strlit("\n");
        assert("\n\n"@ =~= seq!['\n', '\n']);
        assert("\n"@ =~= seq!['\n']);
        let body = text::trim(quote.text("text"@) + seq!['\n', '\n'] + nested);
        let list = text::lines(body);
        lemma_lines_are_lines(body);
        lemma_quoted_lines(list);
        let lines = html::quoted_lines(list);
        assert(shown =~= lines + seq!['\n'] + none);
        text::lemma_split_push(lines, '\n', none);
    }
}

/// The scheme of an address is that of the URL that it is, and what is no URL has
/// none.
pub proof fn law_schemes_are_those_of_urls(url: Seq<char>)
    ensures
        html::url_scheme(url) == match trusted::url_parsed(url) {
            Ok(parts) => Some(parts.scheme),
            Err(_) => None,
        },
{
}

/// A quoted note that is shown is one block: its text in a paragraph, that it is not
/// complete where only a part was kept, the link to where it was first published, and
/// the notes that it quotes itself.
pub proof fn law_quotes_are_blocks(quote: JsonView, emojis: JsonView, depth: nat)
    requires
        depth <= 32,
        !quote.flag("unavailable"@),
    ensures
        ({
            let body = html::social_html(quote.text("text"@), quote.text("source"@), emojis);
            let url = quote.text("url"@);
            let original = html::original_html(url, html::url_scheme(url));
            let nested = html::quotes_as_html(
                quote.get("quotes"@).elements(),
                emojis,
                depth + 1,
            );
            let partial = if quote.flag("partial"@) {
                "<small>"@ + "归档引用片段，可能不完整"@ + "</small>"@
            } else {
                Seq::empty()
            };
            html::quotes_as_html(seq![quote], emojis, depth)
                == "<blockquote class=\"feed-quote\">"@ + "<p>"@ + body + "</p>"@ + partial
                + original + nested + "</blockquote>"@
        }),
{
    let one = seq![quote];
    let inner = quote.get("quotes"@).elements();
    let nested = html::quotes_as_html(inner, emojis, depth + 1);
    assert(one.drop_last() =~= Seq::<JsonView>::empty());
    assert(one.last() == quote);
    assert(html::quotes_as_html(one.drop_last(), emojis, depth) == Seq::<char>::empty());
    let block = html::quote_block(quote, emojis, nested);
    assert(html::quotes_as_html(one, emojis, depth) =~= block);
    reveal_strlit("<blockquote class=\"feed-quote\"><p>");
    reveal_strlit("<blockquote class=\"feed-quote\">");
    reveal_strlit("<p>");
    assert("<blockquote class=\"feed-quote\"><p>"@ =~= "<blockquote class=\"feed-quote\">"@
        + "<p>"@);
    reveal_strlit("<small>归档引用片段，可能不完整</small>");
    reveal_strlit("归档引用片段，可能不完整");
    reveal_strlit("<small>");
    reveal_strlit("</small>");
    assert("<small>归档引用片段，可能不完整</small>"@ =~= "<small>"@ + "归档引用片段，可能不完整"@
        + "</small>"@);
}

} // verus!
