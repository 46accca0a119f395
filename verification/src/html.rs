//! Note texts as HTML: escaping, links, emoji and quoted notes.
use vstd::prelude::*;
use vstd::slice::slice_subrange;
use vstd::string::*;

use crate::json::{Json, JsonView};
use crate::text;
use crate::text::{
    find_char, find_text, has_prefix, is_space_char, line_list, same_text, to_chars, to_text,
    trimmed,
};
use crate::trusted;
use crate::trusted::parse_url;

verus! {

/// What stands for a character in HTML text and attributes.
pub open spec fn entity(c: char) -> Seq<char> {
    if c == '&' {
        "&amp;"@
    } else if c == '<' {
        "&lt;"@
    } else if c == '>' {
        "&gt;"@
    } else if c == '"' {
        "&quot;"@
    } else if c == '\'' {
        "&#39;"@
    } else {
        seq![c]
    }
}

/// A text with every character that has a meaning in HTML written as an entity.
pub open spec fn escaped(s: Seq<char>) -> Seq<char>
    decreases s.len(),
{
    if s.len() == 0 {
        Seq::empty()
    } else {
        escaped(s.drop_last()) + entity(s.last())
    }
}

/// A text with every character that has a meaning in HTML written as an entity.
pub fn escape_chars(s: &[char]) -> (r: String)
    ensures
        r@ == escaped(s@),
{
    let mut out = String::new();
    for i in 0..s.len()
        invariant
            out@ == escaped(s@.take(i as int)),
    {
        let c = s[i];
        assert(s@.take(i + 1).drop_last() == s@.take(i as int));
        if c == '&' {
            out.append("&amp;");
        } else if c == '<' {
            out.append("&lt;");
        } else if c == '>' {
            out.append("&gt;");
        } else if c == '"' {
            out.append("&quot;");
        } else if c == '\'' {
            out.append("&#39;");
        } else {
            let ghost before = out@;
            out.push(c);
            assert(out@ == before + seq![c]);
        }
    }
    assert(s@.take(s@.len() as int) == s@);
    out
}

/// A text with every character that has a meaning in HTML written as an entity.
pub fn escape(s: &str) -> (r: String)
    ensures
        r@ == escaped(s@),
{
    let chars = to_chars(s);
    escape_chars(chars.as_slice())
}

/// Where the first web address of a text begins.
pub open spec fn link_start(s: Seq<char>) -> Option<int> {
    match (text::find(s, "https://"@), text::find(s, "http://"@)) {
        (Some(a), Some(b)) => Some(if a <= b { a } else { b }),
        (Some(a), None) => Some(a),
        (None, b) => b,
    }
}

/// The characters that no web address goes beyond.
pub open spec fn is_link_stop(c: char) -> bool {
    ||| text::is_space(c)
    ||| c == '<'
    ||| c == '>'
    ||| c == '"'
    ||| c == '\''
    ||| c == '['
    ||| c == ']'
    ||| c == '（'
    ||| c == '）'
    ||| c == '。'
    ||| c == '，'
    ||| c == '；'
    ||| c == '！'
    ||| c == '？'
    ||| c == '、'
}

/// How many characters stand before the first one that stops an address.
pub open spec fn link_span(s: Seq<char>) -> int
    decreases s.len(),
{
    if s.len() == 0 || is_link_stop(s[0]) {
        0
    } else {
        1 + link_span(s.drop_first())
    }
}

/// The punctuation that is not part of an address at whose end it stands.
pub open spec fn is_link_tail(c: char) -> bool {
    c == '.' || c == ',' || c == ';' || c == '!' || c == '?' || c == ')'
}

/// An address without the punctuation at its end.
pub open spec fn trim_link(s: Seq<char>) -> Seq<char>
    decreases s.len(),
{
    if s.len() > 0 && is_link_tail(s.last()) {
        trim_link(s.drop_last())
    } else {
        s
    }
}

/// The address at the front of a text.
pub open spec fn leading_link(s: Seq<char>) -> Seq<char> {
    trim_link(s.take(link_span(s)))
}

/// An address as HTML: a link where it is a URL, and plain text otherwise.
pub open spec fn link_html(url: Seq<char>, is_url: bool) -> Seq<char> {
    if is_url {
        "<a href=\""@ + escaped(url) + "\" target=\"_blank\" rel=\"noopener\">"@ + escaped(url)
            + "</a>"@
    } else {
        escaped(url)
    }
}

/// A text as HTML, with its web addresses as links.
pub open spec fn linked(s: Seq<char>) -> Seq<char>
    decreases s.len(),
{
    match link_start(s) {
        None => escaped(s),
        Some(i) => {
            proof {
                lemma_leading_link(s);
            }
            let url = leading_link(s.skip(i));
            escaped(s.take(i)) + link_html(url, trusted::url_parsed(url) is Ok) + linked(
                s.skip(i + url.len()),
            )
        },
    }
}

/// How far an address goes.
pub proof fn lemma_link_span(s: Seq<char>)
    ensures
        0 <= link_span(s) <= s.len(),
    decreases s.len(),
{
    if s.len() > 0 && !is_link_stop(s[0]) {
        lemma_link_span(s.drop_first());
    }
}

/// What is left of an address without punctuation at its end.
proof fn lemma_trim_link(s: Seq<char>)
    ensures
        trim_link(s).len() <= s.len(),
        trim_link(s) == s.take(trim_link(s).len() as int),
        s.len() > 0 && !is_link_tail(s[0]) ==> trim_link(s).len() > 0,
    decreases s.len(),
{
    if s.len() > 0 && is_link_tail(s.last()) {
        lemma_trim_link(s.drop_last());
        let t = trim_link(s.drop_last());
        assert(s.drop_last().take(t.len() as int) == s.take(t.len() as int));
    } else {
        assert(s.take(s.len() as int) == s);
    }
}

/// An address that was found is not empty and lies inside the text.
pub proof fn lemma_leading_link(s: Seq<char>)
    requires
        link_start(s) is Some,
    ensures
        0 <= link_start(s)->0 < s.len(),
        0 < leading_link(s.skip(link_start(s)->0)).len() <= s.len() - link_start(s)->0,
        leading_link(s.skip(link_start(s)->0)) == s.skip(link_start(s)->0).take(
            leading_link(s.skip(link_start(s)->0)).len() as int,
        ),
        text::starts_with(s.skip(link_start(s)->0), "https://"@) || text::starts_with(
            s.skip(link_start(s)->0),
            "http://"@,
        ),
{
    reveal_strlit("https://");
    reveal_strlit("http://");
    text::lemma_find(s, "https://"@);
    text::lemma_find(s, "http://"@);
    let i = link_start(s)->0;
    let tail = s.skip(i);
    assert(tail[0] == 'h') by {
        if text::starts_with(tail, "https://"@) {
            assert(tail.take("https://"@.len() as int)[0] == "https://"@[0]);
        } else {
            assert(tail.take("http://"@.len() as int)[0] == "http://"@[0]);
        }
    }
    lemma_link_span(tail);
    lemma_link_span(tail.drop_first());
    let head = tail.take(link_span(tail));
    assert(head[0] == 'h');
    lemma_trim_link(head);
    let url = leading_link(tail);
    assert(head.take(url.len() as int) == tail.take(url.len() as int));
}

/// Where the first web address of a text begins.
pub fn find_link(s: &[char]) -> (r: Option<usize>)
    ensures
        match r {
            Some(i) => link_start(s@) == Some(i as int),
            None => link_start(s@) is None,
        },
{
    let secure = find_text(s, to_chars("https://").as_slice());
    let insecure = find_text(s, to_chars("http://").as_slice());
    match secure {
        Some(a) => match insecure {
            Some(b) => Some(
                if a <= b {
                    a
                } else {
                    b
                },
            ),
            None => Some(a),
        },
        None => insecure,
    }
}

/// Whether no web address goes beyond a character.
fn is_link_stop_char(c: char) -> (r: bool)
    ensures
        r == is_link_stop(c),
{
    is_space_char(c) || c == '<' || c == '>' || c == '"' || c == '\'' || c == '[' || c == ']' || c
        == '（' || c == '）' || c == '。' || c == '，' || c == '；' || c == '！' || c == '？' || c
        == '、'
}

/// The address at the front of a text.
pub fn take_link(s: &[char]) -> (r: &[char])
    ensures
        r@ == leading_link(s@),
{
    let mut n: usize = 0;
    let total = s.len();
    assert(s@.skip(0) == s@);
    while n < total && !is_link_stop_char(s[n])
        invariant
            total == s@.len(),
            n <= total,
            link_span(s@) == n + link_span(s@.skip(n as int)),
        decreases total - n,
    {
        assert(s@.skip(n as int).drop_first() == s@.skip(n + 1));
        n += 1;
    }
    let mut rest: &[char] = slice_subrange(s, 0, n);
    assert(rest@ == s@.take(link_span(s@)));
    while rest.len() > 0 && (rest[rest.len() - 1] == '.' || rest[rest.len() - 1] == ','
        || rest[rest.len() - 1] == ';' || rest[rest.len() - 1] == '!' || rest[rest.len() - 1]
        == '?' || rest[rest.len() - 1] == ')')
        invariant
            trim_link(rest@) == leading_link(s@),
        decreases rest@.len(),
    {
        assert(rest@.subrange(0, rest@.len() - 1) == rest@.drop_last());
        rest = slice_subrange(rest, 0, rest.len() - 1);
    }
    rest
}

/// An address as HTML: a link where it is a URL, and plain text otherwise.
pub fn link_or_text(url: &[char], is_url: bool) -> (r: String)
    ensures
        r@ == link_html(url@, is_url),
{
    let safe = escape_chars(url);
    if !is_url {
        return safe;
    }
    let mut out = "<a href=\"".to_owned();
    out.append(safe.as_str());
    out.append("\" target=\"_blank\" rel=\"noopener\">");
    out.append(safe.as_str());
    out.append("</a>");
    out
}

/// A text as HTML, with its web addresses as links.
pub fn linked_chars(s: &[char]) -> (r: String)
    ensures
        r@ == linked(s@),
{
    let mut out = String::new();
    let mut rest: &[char] = s;
    loop
        invariant
            linked(s@) == out@ + linked(rest@),
        decreases rest@.len(),
    {
        let start = match find_link(rest) {
            Some(start) => start,
            None => {
                let tail = escape_chars(rest);
                out.append(tail.as_str());
                return out;
            },
        };
        proof {
            lemma_leading_link(rest@);
        }
        let ghost before = out@;
        assert(rest@.subrange(0, start as int) == rest@.take(start as int));
        assert(rest@.subrange(start as int, rest@.len() as int) == rest@.skip(start as int));
        let front = escape_chars(slice_subrange(rest, 0, start));
        let tail = slice_subrange(rest, start, rest.len());
        let url = take_link(tail);
        let is_url = parse_url(to_text(url).as_str()).is_ok();
        let link = link_or_text(url, is_url);
        out.append(front.as_str());
        out.append(link.as_str());
        proof {
            let next = rest@.skip(start + url@.len());
            assert(tail@.subrange(url@.len() as int, tail@.len() as int) == next);
            assert(linked(rest@) == front@ + link@ + linked(next));
            assert(out@ == before + front@ + link@);
            assert(before + (front@ + link@ + linked(next)) == out@ + linked(next));
        }
        rest = slice_subrange(tail, url.len(), tail.len());
    }
}

/// A text as HTML, with its web addresses as links.
pub fn linked_text(s: &str) -> (r: String)
    ensures
        r@ == linked(s@),
{
    let chars = to_chars(s);
    linked_chars(chars.as_slice())
}

/// The link to where a note was first published. There is one for web addresses
/// alone.
pub open spec fn original_html(url: Seq<char>, scheme: Option<Seq<char>>) -> Seq<char> {
    if scheme == Some("http"@) || scheme == Some("https"@) {
        "<a class=\"feed-original\" href=\""@ + escaped(url)
            + "\" target=\"_blank\" rel=\"noopener\">原文</a>"@
    } else {
        Seq::empty()
    }
}

/// The scheme of a text that is a URL.
pub open spec fn url_scheme(url: Seq<char>) -> Option<Seq<char>> {
    match trusted::url_parsed(url) {
        Ok(parts) => Some(parts.scheme),
        Err(_) => None,
    }
}

/// The link to where a note was first published, for an address with a given
/// scheme.
pub fn original_link_for(url: &str, scheme: Option<&str>) -> (r: String)
    ensures
        r@ == original_html(
            url@,
            match scheme {
                Some(s) => Some(s@),
                None => None,
            },
        ),
{
    let is_web = match scheme {
        Some(s) => same_text(s, "http") || same_text(s, "https"),
        None => false,
    };
    if !is_web {
        return String::new();
    }
    let mut out = "<a class=\"feed-original\" href=\"".to_owned();
    out.append(escape(url).as_str());
    out.append("\" target=\"_blank\" rel=\"noopener\">原文</a>");
    out
}

/// The link to where a note was first published.
pub fn original_link(url: &str) -> (r: String)
    ensures
        r@ == original_html(url@, url_scheme(url@)),
{
    match parse_url(url) {
        Ok(parts) => original_link_for(url, Some(parts.scheme.as_str())),
        Err(_) => original_link_for(url, None),
    }
}

/// The picture of an emoji, where the table has one from the host that serves
/// them.
pub open spec fn emoji_url(emojis: JsonView, name: Seq<char>) -> Option<Seq<char>> {
    match emojis.get(name) {
        JsonView::Text(url) => if text::starts_with(url, "https://face.t.sinajs.cn/"@) {
            Some(url)
        } else {
            None
        },
        _ => None,
    }
}

/// An emoji as HTML.
pub open spec fn emoji_html(token: Seq<char>, url: Seq<char>) -> Seq<char> {
    "<img class=\"weibo-emoji\" src=\""@ + escaped(url) + "\" alt=\""@ + escaped(token)
        + "\" title=\""@ + escaped(token)
        + "\" width=\"20\" height=\"20\" loading=\"lazy\" referrerpolicy=\"no-referrer\">"@
}

/// The name in the brackets that open a text, where they are closed.
pub open spec fn bracketed(s: Seq<char>) -> Option<Seq<char>> {
    let end = text::index_of(s, ']');
    if s.len() > 0 && s[0] == '[' && 0 < end < s.len() {
        Some(s.subrange(1, end))
    } else {
        None
    }
}

/// A Weibo text as HTML: names in brackets that the table knows are emoji, and
/// everything else is text with links.
pub open spec fn weibo(s: Seq<char>, emojis: JsonView) -> Seq<char>
    decreases s.len(),
{
    let i = text::index_of(s, '[');
    if 0 <= i < s.len() {
        let rest = s.skip(i);
        let name = bracketed(rest);
        if name is Some && emoji_url(emojis, name->0) is Some {
            let size = name->0.len() + 2;
            linked(s.take(i)) + emoji_html(rest.take(size as int), emoji_url(emojis, name->0)->0)
                + weibo(rest.skip(size as int), emojis)
        } else {
            linked(s.take(i)) + "["@ + weibo(rest.skip(1), emojis)
        }
    } else {
        linked(s)
    }
}

/// The text of a note from a given source as HTML.
pub open spec fn social_html(s: Seq<char>, source: Seq<char>, emojis: JsonView) -> Seq<char> {
    if source == "微博"@ {
        weibo(s, emojis)
    } else {
        linked(s)
    }
}

/// The picture of an emoji, where the table has one from the host that serves
/// them.
fn find_emoji<'a>(emojis: &'a Json, name: &[char]) -> (r: Option<&'a str>)
    ensures
        match r {
            Some(url) => emoji_url(emojis@, name@) == Some(url@),
            None => emoji_url(emojis@, name@) is None,
        },
{
    match emojis.find(to_text(name).as_str()) {
        Some(Json::Text(url)) => {
            let chars = to_chars(url.as_str());
            if has_prefix(chars.as_slice(), to_chars("https://face.t.sinajs.cn/").as_slice()) {
                Some(url.as_str())
            } else {
                None
            }
        },
        _ => None,
    }
}

/// An emoji as HTML.
fn emoji_image(token: &[char], url: &str) -> (r: String)
    ensures
        r@ == emoji_html(token@, url@),
{
    let alt = escape_chars(token);
    let mut out = "<img class=\"weibo-emoji\" src=\"".to_owned();
    out.append(escape(url).as_str());
    out.append("\" alt=\"");
    out.append(alt.as_str());
    out.append("\" title=\"");
    out.append(alt.as_str());
    out.append(
        "\" width=\"20\" height=\"20\" loading=\"lazy\" referrerpolicy=\"no-referrer\">",
    );
    out
}

/// A Weibo text as HTML.
fn weibo_chars(s: &[char], emojis: &Json) -> (r: String)
    ensures
        r@ == weibo(s@, emojis@),
{
    let mut out = String::new();
    let mut rest: &[char] = s;
    loop
        invariant
            weibo(s@, emojis@) == out@ + weibo(rest@, emojis@),
        decreases rest@.len(),
    {
        let start = find_char(rest, '[');
        if start == rest.len() {
            let tail = linked_chars(rest);
            out.append(tail.as_str());
            return out;
        }
        let ghost before = out@;
        assert(rest@.subrange(0, start as int) == rest@.take(start as int));
        assert(rest@.subrange(start as int, rest@.len() as int) == rest@.skip(start as int));
        let front = linked_chars(slice_subrange(rest, 0, start));
        out.append(front.as_str());
        let tail = slice_subrange(rest, start, rest.len());
        assert(tail@[0] == '[');
        let end = find_char(tail, ']');
        if end < tail.len() {
            let name = slice_subrange(tail, 1, end);
            assert(bracketed(tail@) == Some(name@));
            if let Some(url) = find_emoji(emojis, name) {
                assert(tail@.subrange(0, end + 1) == tail@.take(end + 1));
                let image = emoji_image(slice_subrange(tail, 0, end + 1), url);
                out.append(image.as_str());
                proof {
                    let next = tail@.skip(end + 1);
                    assert(tail@.subrange(end + 1, tail@.len() as int) == next);
                    assert(weibo(rest@, emojis@) == front@ + image@ + weibo(next, emojis@));
                    assert(before + (front@ + image@ + weibo(next, emojis@)) == out@ + weibo(
                        next,
                        emojis@,
                    ));
                }
                rest = slice_subrange(tail, end + 1, tail.len());
                continue;
            }
        }
        out.append("[");
        proof {
            let next = tail@.skip(1);
            assert(tail@.subrange(1, tail@.len() as int) == next);
            assert(weibo(rest@, emojis@) == front@ + "["@ + weibo(next, emojis@));
            assert(before + (front@ + "["@ + weibo(next, emojis@)) == out@ + weibo(next, emojis@));
        }
        rest = slice_subrange(tail, 1, tail.len());
    }
}

/// The text of a note from a given source as HTML.
pub fn social_chars(s: &[char], source: &str, emojis: &Json) -> (r: String)
    ensures
        r@ == social_html(s@, source@, emojis@),
{
    if same_text(source, "微博") {
        weibo_chars(s, emojis)
    } else {
        linked_chars(s)
    }
}

/// The text of a note from a given source as HTML.
pub fn social(s: &str, source: &str, emojis: &Json) -> (r: String)
    ensures
        r@ == social_html(s@, source@, emojis@),
{
    let chars = to_chars(s);
    social_chars(chars.as_slice(), source, emojis)
}

/// One quoted note as HTML, around the notes that it quotes itself.
pub open spec fn quote_block(quote: JsonView, emojis: JsonView, nested: Seq<char>) -> Seq<char> {
    "<blockquote class=\"feed-quote\"><p>"@ + social_html(
        quote.text("text"@),
        quote.text("source"@),
        emojis,
    ) + "</p>"@ + (if quote.flag("partial"@) {
        "<small>归档引用片段，可能不完整</small>"@
    } else {
        Seq::empty()
    }) + original_html(quote.text("url"@), url_scheme(quote.text("url"@))) + nested
        + "</blockquote>"@
}

/// Quoted notes as HTML. Those that are marked unavailable are left out, and so
/// is everything that is nested more than 32 deep.
pub open spec fn quotes_as_html(items: Seq<JsonView>, emojis: JsonView, depth: nat) -> Seq<char>
    decreases 33 - depth, items.len(),
{
    if depth > 32 || items.len() == 0 {
        Seq::empty()
    } else {
        let quote = items.last();
        let front = quotes_as_html(items.drop_last(), emojis, depth);
        if quote.flag("unavailable"@) {
            front
        } else {
            front + quote_block(
                quote,
                emojis,
                quotes_as_html(quote.get("quotes"@).elements(), emojis, depth + 1),
            )
        }
    }
}

/// One quoted note as HTML, around the notes that it quotes itself.
fn quote_html(quote: &Json, emojis: &Json, nested: &str) -> (r: String)
    ensures
        r@ == quote_block(quote@, emojis@, nested@),
{
    let body = social(quote.text("text"), quote.text("source"), emojis);
    let original = original_link(quote.text("url"));
    let warning = if quote.flag("partial") {
        "<small>归档引用片段，可能不完整</small>".to_owned()
    } else {
        String::new()
    };
    let mut out = "<blockquote class=\"feed-quote\"><p>".to_owned();
    out.append(body.as_str());
    out.append("</p>");
    out.append(warning.as_str());
    out.append(original.as_str());
    out.append(nested);
    out.append("</blockquote>");
    out
}

/// Quoted notes as HTML.
pub fn quotes_html(quotes: &Json, emojis: &Json, depth: usize) -> (r: String)
    ensures
        r@ == quotes_as_html(quotes@.elements(), emojis@, depth as nat),
    decreases 33 - depth,
{
    let mut out = String::new();
    if depth > 32 {
        return out;
    }
    if let Json::List(v) = quotes {
        let ghost items = quotes@.elements();
        assert(items.take(0) == Seq::<JsonView>::empty());
        for i in 0..v.len()
            invariant
                depth <= 32,
                items.len() == v@.len(),
                forall|k: int| 0 <= k < v@.len() ==> #[trigger] items[k] == v@[k]@,
                out@ == quotes_as_html(items.take(i as int), emojis@, depth as nat),
        {
            let quote = &v[i];
            let ghost next = items.take(i + 1);
            assert(next.drop_last() == items.take(i as int));
            assert(next.last() == quote@);
            if !quote.flag("unavailable") {
                let nested = match quote.find("quotes") {
                    Some(inner) => quotes_html(inner, emojis, depth + 1),
                    None => String::new(),
                };
                assert(nested@ == quotes_as_html(
                    quote@.get("quotes"@).elements(),
                    emojis@,
                    (depth + 1) as nat,
                ));
                let block = quote_html(quote, emojis, nested.as_str());
                out.append(block.as_str());
            }
        }
        assert(items.take(items.len() as int) == items);
    }
    out
}

/// Lines of Markdown that quote given lines.
pub open spec fn quoted_lines(list: Seq<Seq<char>>) -> Seq<char>
    decreases list.len(),
{
    if list.len() == 0 {
        Seq::empty()
    } else {
        quoted_lines(list.drop_last()) + "> "@ + list.last() + "\n"@
    }
}

/// Quoted notes as Markdown: every line of a quoted note, and of the notes that
/// it quotes itself, stands behind a mark. Notes that are marked unavailable are
/// left out, and so is everything that is nested more than 32 deep.
pub open spec fn quotes_as_md(items: Seq<JsonView>, depth: nat) -> Seq<char>
    decreases 33 - depth, items.len(),
{
    if depth > 32 || items.len() == 0 {
        Seq::empty()
    } else {
        let quote = items.last();
        let front = quotes_as_md(items.drop_last(), depth);
        if quote.flag("unavailable"@) {
            front
        } else {
            let body = quote.text("text"@) + "\n\n"@ + quotes_as_md(
                quote.get("quotes"@).elements(),
                depth + 1,
            );
            front + quoted_lines(text::lines(text::trim(body))) + "\n"@
        }
    }
}

/// Lines of Markdown that quote the lines of a text without the white space at
/// its ends.
fn quote_lines(body: &str) -> (r: String)
    ensures
        r@ == quoted_lines(text::lines(text::trim(body@))),
{
    let chars = to_chars(body);
    let list = line_list(trimmed(chars.as_slice()));
    let ghost all = text::lines(text::trim(body@));
    let mut out = String::new();
    assert(all.take(0) == Seq::<Seq<char>>::empty());
    for i in 0..list.len()
        invariant
            all == text::char_views(list@),
            out@ == quoted_lines(all.take(i as int)),
    {
        assert(all.take(i + 1).drop_last() == all.take(i as int));
        assert(all.take(i + 1).last() == list@[i as int]@);
        out.append("> ");
        out.append(to_text(list[i].as_slice()).as_str());
        out.append("\n");
    }
    assert(all.take(all.len() as int) == all);
    out
}

/// Quoted notes as Markdown.
pub fn quotes_md(quotes: &Json, depth: usize) -> (r: String)
    ensures
        r@ == quotes_as_md(quotes@.elements(), depth as nat),
    decreases 33 - depth,
{
    let mut out = String::new();
    if depth > 32 {
        return out;
    }
    if let Json::List(v) = quotes {
        let ghost items = quotes@.elements();
        assert(items.take(0) == Seq::<JsonView>::empty());
        for i in 0..v.len()
            invariant
                depth <= 32,
                items.len() == v@.len(),
                forall|k: int| 0 <= k < v@.len() ==> #[trigger] items[k] == v@[k]@,
                out@ == quotes_as_md(items.take(i as int), depth as nat),
        {
            let quote = &v[i];
            let ghost next = items.take(i + 1);
            assert(next.drop_last() == items.take(i as int));
            assert(next.last() == quote@);
            if !quote.flag("unavailable") {
                let nested = match quote.find("quotes") {
                    Some(inner) => quotes_md(inner, depth + 1),
                    None => String::new(),
                };
                assert(nested@ == quotes_as_md(
                    quote@.get("quotes"@).elements(),
                    (depth + 1) as nat,
                ));
                let mut body = quote.text("text").to_owned();
                body.append("\n\n");
                body.append(nested.as_str());
                let lines = quote_lines(body.as_str());
                out.append(lines.as_str());
                out.append("\n");
            }
        }
        assert(items.take(items.len() as int) == items);
    }
    out
}

} // verus!
