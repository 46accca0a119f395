//! What becomes of a text when its web addresses are made links: nothing is lost,
//! nothing is doubled, and nothing is left unescaped.
use vstd::prelude::*;

use crate::html;
use crate::json::JsonView;
use crate::safety;
use crate::text;
use crate::trusted;

verus! {

/// HTML without its tags: without everything from a `<` to the next `>`.
pub open spec fn without_tags(s: Seq<char>) -> Seq<char>
    decreases s.len(),
{
    if s.len() == 0 {
        Seq::empty()
    } else if s[0] == '<' {
        let end = text::index_of(s, '>');
        if 0 <= end < s.len() {
            without_tags(s.skip(end + 1))
        } else {
            Seq::empty()
        }
    } else {
        seq![s[0]] + without_tags(s.drop_first())
    }
}

/// A piece of a text with links: plain text, or an address that is a link.
pub enum Piece {
    Plain(Seq<char>),
    Link(Seq<char>),
}

impl Piece {
    /// What the piece reads.
    pub open spec fn source(self) -> Seq<char> {
        match self {
            Piece::Plain(s) => s,
            Piece::Link(url) => url,
        }
    }

    /// The piece as HTML. The text of a link is its own address.
    pub open spec fn html(self) -> Seq<char> {
        match self {
            Piece::Plain(s) => html::escaped(s),
            Piece::Link(url) => html::link_html(url, true),
        }
    }
}

/// The pieces of a text: its web addresses and what stands between them.
pub open spec fn pieces(s: Seq<char>) -> Seq<Piece>
    decreases s.len(),
{
    match html::link_start(s) {
        None => seq![Piece::Plain(s)],
        Some(i) => {
            proof {
                html::lemma_leading_link(s);
            }
            let url = html::leading_link(s.skip(i));
            let address = if trusted::url_parsed(url) is Ok {
                Piece::Link(url)
            } else {
                Piece::Plain(url)
            };
            seq![Piece::Plain(s.take(i)), address] + pieces(s.skip(i + url.len()))
        },
    }
}

/// What pieces read, one after another.
pub open spec fn sources(list: Seq<Piece>) -> Seq<char> {
    text::concat(list.map_values(|piece: Piece| piece.source()))
}

/// Pieces as HTML, one after another.
pub open spec fn rendered(list: Seq<Piece>) -> Seq<char> {
    text::concat(list.map_values(|piece: Piece| piece.html()))
}

/// A text begins like a web address.
pub open spec fn is_web(s: Seq<char>) -> bool {
    text::starts_with(s, "https://"@) || text::starts_with(s, "http://"@)
}

/// The escaped form of two texts in a row is that of one after the other.
pub proof fn lemma_escaped_concat(a: Seq<char>, b: Seq<char>)
    ensures
        html::escaped(a + b) == html::escaped(a) + html::escaped(b),
    decreases b.len(),
{
    if b.len() == 0 {
        assert(a + b =~= a);
        assert(html::escaped(a) + Seq::<char>::empty() =~= html::escaped(a));
    } else {
        assert((a + b).drop_last() =~= a + b.drop_last());
        lemma_escaped_concat(a, b.drop_last());
        assert(html::escaped(a) + (html::escaped(b.drop_last()) + html::entity(b.last()))
            =~= html::escaped(a) + html::escaped(b.drop_last()) + html::entity(b.last()));
    }
}

/// Text before HTML stays as it is when the tags are taken out.
proof fn lemma_tags_after_text(a: Seq<char>, b: Seq<char>)
    requires
        forall|i: int| 0 <= i < a.len() ==> #[trigger] a[i] != '<',
    ensures
        without_tags(a + b) == a + without_tags(b),
    decreases a.len(),
{
    if a.len() == 0 {
        assert(a + b =~= b);
        assert(a + without_tags(b) =~= without_tags(b));
    } else {
        let rest = a.drop_first();
        assert((a + b)[0] == a[0]);
        assert((a + b).drop_first() =~= rest + b);
        assert forall|i: int| 0 <= i < rest.len() implies #[trigger] rest[i] != '<' by {
            assert(rest[i] == a[i + 1]);
        }
        lemma_tags_after_text(rest, b);
        assert(seq![a[0]] + (rest + without_tags(b)) =~= a + without_tags(b));
    }
}

/// A tag before HTML goes when the tags are taken out.
proof fn lemma_tag_goes(tag: Seq<char>, b: Seq<char>)
    requires
        tag.len() > 1,
        tag[0] == '<',
        tag.last() == '>',
        forall|i: int| 0 <= i < tag.len() - 1 ==> #[trigger] tag[i] != '>',
    ensures
        without_tags(tag + b) == without_tags(b),
{
    let s = tag + b;
    let end = tag.len() - 1;
    assert(s[end] == '>');
    assert forall|j: int| 0 <= j < end implies s[j] != '>' by {
        assert(s[j] == tag[j]);
    }
    text::lemma_index_of_at(s, '>', end);
    assert(s.skip(end + 1) =~= b);
}

/// An address as HTML reads as the escaped address once its tags are taken out.
proof fn lemma_link_reads(url: Seq<char>, is_url: bool, rest: Seq<char>)
    ensures
        without_tags(html::link_html(url, is_url) + rest) == html::escaped(url) + without_tags(
            rest,
        ),
{
    let safe = html::escaped(url);
    safety::law_escaped_text_is_inert(url);
    if is_url {
        reveal_strlit("<a href=\"");
        reveal_strlit("\" target=\"_blank\" rel=\"noopener\">");
        reveal_strlit("</a>");
        let front = "<a href=\""@;
        let back = "\" target=\"_blank\" rel=\"noopener\">"@;
        let open = front + safe + back;
        let close = "</a>"@;
        assert(open.last() == back.last());
        assert forall|i: int| 0 <= i < open.len() - 1 implies #[trigger] open[i] != '>' by {
            if i < front.len() {
                assert(open[i] == front[i]);
            } else if i < front.len() + safe.len() {
                assert(open[i] == safe[i - front.len()]);
            } else {
                assert(open[i] == back[i - front.len() - safe.len()]);
            }
        }
        assert(html::link_html(url, is_url) + rest =~= open + (safe + (close + rest)));
        lemma_tag_goes(open, safe + (close + rest));
        lemma_tags_after_text(safe, close + rest);
        lemma_tag_goes(close, rest);
    } else {
        lemma_tags_after_text(safe, rest);
    }
}

proof fn lemma_without_tags(s: Seq<char>)
    ensures
        without_tags(html::linked(s)) == html::escaped(s),
    decreases s.len(),
{
    match html::link_start(s) {
        None => {
            let safe = html::escaped(s);
            safety::law_escaped_text_is_inert(s);
            lemma_tags_after_text(safe, Seq::empty());
            assert(safe + Seq::<char>::empty() =~= safe);
            assert(without_tags(Seq::<char>::empty()) =~= Seq::<char>::empty());
        },
        Some(i) => {
            html::lemma_leading_link(s);
            let front = s.take(i);
            let url = html::leading_link(s.skip(i));
            let next = s.skip(i + url.len());
            let link = html::link_html(url, trusted::url_parsed(url) is Ok);
            let rest = html::linked(next);
            lemma_without_tags(next);
            safety::law_escaped_text_is_inert(front);
            assert(html::linked(s) =~= html::escaped(front) + (link + rest));
            lemma_tags_after_text(html::escaped(front), link + rest);
            lemma_link_reads(url, trusted::url_parsed(url) is Ok, rest);
            assert(s =~= front + url + next);
            lemma_escaped_concat(front + url, next);
            lemma_escaped_concat(front, url);
            assert(html::escaped(front) + (html::escaped(url) + html::escaped(next))
                =~= html::escaped(s));
        },
    }
}

/// Texts in a row are put together from left to right.
proof fn lemma_concat_two(a: Seq<char>, b: Seq<char>, rest: Seq<Seq<char>>)
    ensures
        text::concat(seq![a, b] + rest) == a + b + text::concat(rest),
    decreases rest.len(),
{
    let all = seq![a, b] + rest;
    if rest.len() == 0 {
        assert(all.drop_last() =~= seq![a]);
        assert(all.drop_last().drop_last() =~= Seq::<Seq<char>>::empty());
        reveal_with_fuel(text::concat, 3);
        assert(text::concat(all) =~= a + b + text::concat(rest));
    } else {
        assert(all.drop_last() =~= seq![a, b] + rest.drop_last());
        lemma_concat_two(a, b, rest.drop_last());
        assert(text::concat(all) =~= a + b + text::concat(rest));
    }
}

/// The text of one piece is that piece.
proof fn lemma_concat_one(a: Seq<char>)
    ensures
        text::concat(seq![a]) == a,
{
    assert(seq![a].drop_last() =~= Seq::<Seq<char>>::empty());
    reveal_with_fuel(text::concat, 2);
    assert(text::concat(seq![a]) =~= a);
}

/// How far an address goes at least.
proof fn lemma_span_at_least(s: Seq<char>, n: int)
    requires
        0 <= n <= s.len(),
        forall|k: int| 0 <= k < n ==> !html::is_link_stop(#[trigger] s[k]),
    ensures
        n <= html::link_span(s),
    decreases n,
{
    if n > 0 {
        let rest = s.drop_first();
        assert(!html::is_link_stop(s[0]));
        assert forall|k: int| 0 <= k < n - 1 implies !html::is_link_stop(#[trigger] rest[k]) by {
            assert(rest[k] == s[k + 1]);
        }
        lemma_span_at_least(rest, n - 1);
    } else {
        html::lemma_link_span(s);
    }
}

/// What is left at least of an address without the punctuation at its end.
proof fn lemma_trim_at_least(s: Seq<char>, n: int)
    requires
        0 < n <= s.len(),
        !html::is_link_tail(s[n - 1]),
    ensures
        n <= html::trim_link(s).len(),
    decreases s.len(),
{
    if html::is_link_tail(s.last()) {
        lemma_trim_at_least(s.drop_last(), n);
    }
}

/// An address that was found begins like one.
proof fn lemma_leading_link_is_web(s: Seq<char>)
    requires
        html::link_start(s) is Some,
    ensures
        is_web(html::leading_link(s.skip(html::link_start(s)->0))),
{
    html::lemma_leading_link(s);
    reveal_strlit("https://");
    reveal_strlit("http://");
    let tail = s.skip(html::link_start(s)->0);
    let prefix = if text::starts_with(tail, "https://"@) {
        "https://"@
    } else {
        "http://"@
    };
    let n = prefix.len() as int;
    assert forall|k: int| 0 <= k < n implies !html::is_link_stop(#[trigger] tail[k]) by {
        assert(tail.take(n)[k] == prefix[k]);
    }
    lemma_span_at_least(tail, n);
    html::lemma_link_span(tail);
    let head = tail.take(html::link_span(tail));
    assert(tail.take(n)[n - 1] == prefix[n - 1]);
    assert(head[n - 1] == '/');
    lemma_trim_at_least(head, n);
    let url = html::leading_link(tail);
    assert(url.take(n) =~= prefix);
}

proof fn lemma_pieces(s: Seq<char>)
    ensures
        sources(pieces(s)) == s,
        rendered(pieces(s)) == html::linked(s),
        forall|k: int|
            0 <= k < pieces(s).len() ==> match #[trigger] pieces(s)[k] {
                Piece::Link(url) => is_web(url) && trusted::url_parsed(url) is Ok,
                Piece::Plain(_) => true,
            },
    decreases s.len(),
{
    let all = pieces(s);
    match html::link_start(s) {
        None => {
            lemma_concat_one(s);
            lemma_concat_one(html::escaped(s));
            assert(all.map_values(|piece: Piece| piece.source()) =~= seq![s]);
            assert(all.map_values(|piece: Piece| piece.html()) =~= seq![html::escaped(s)]);
        },
        Some(i) => {
            html::lemma_leading_link(s);
            lemma_leading_link_is_web(s);
            let front = s.take(i);
            let url = html::leading_link(s.skip(i));
            let next = s.skip(i + url.len());
            let rest = pieces(next);
            lemma_pieces(next);
            let address = if trusted::url_parsed(url) is Ok {
                Piece::Link(url)
            } else {
                Piece::Plain(url)
            };
            assert(all == seq![Piece::Plain(front), address] + rest);
            assert(all.map_values(|piece: Piece| piece.source()) =~= seq![front, url]
                + rest.map_values(|piece: Piece| piece.source()));
            assert(all.map_values(|piece: Piece| piece.html()) =~= seq![
                html::escaped(front),
                address.html(),
            ] + rest.map_values(|piece: Piece| piece.html()));
            lemma_concat_two(front, url, rest.map_values(|piece: Piece| piece.source()));
            lemma_concat_two(
                html::escaped(front),
                address.html(),
                rest.map_values(|piece: Piece| piece.html()),
            );
            assert(front + url + next =~= s);
            assert forall|k: int| 0 <= k < all.len() implies match #[trigger] all[k] {
                Piece::Link(url) => is_web(url) && trusted::url_parsed(url) is Ok,
                Piece::Plain(_) => true,
            } by {
                if k >= 2 {
                    assert(all[k] == rest[k - 2]);
                }
            }
        },
    }
}

/// Every tag in a piece of HTML opens or closes a link.
pub open spec fn only_link_tags(s: Seq<char>) -> bool {
    forall|i: int|
        0 <= i < s.len() && #[trigger] s[i] == '<' ==> text::starts_with(
            s.skip(i),
            "<a href=\""@,
        ) || text::starts_with(s.skip(i), "</a>"@)
}

/// HTML with the tags of links alone stays so when more of it follows.
proof fn lemma_link_tags_concat(a: Seq<char>, b: Seq<char>)
    requires
        only_link_tags(a),
        only_link_tags(b),
    ensures
        only_link_tags(a + b),
{
    let s = a + b;
    assert forall|i: int| 0 <= i < s.len() && #[trigger] s[i] == '<' implies text::starts_with(
        s.skip(i),
        "<a href=\""@,
    ) || text::starts_with(s.skip(i), "</a>"@) by {
        if i < a.len() {
            assert(a[i] == '<');
            if text::starts_with(a.skip(i), "</a>"@) {
                safety::lemma_prefix_of_concat(a, b, i, "</a>"@);
            } else {
                safety::lemma_prefix_of_concat(a, b, i, "<a href=\""@);
            }
        } else {
            assert(b[i - a.len()] == '<');
            assert(s.skip(i) =~= b.skip(i - a.len()));
        }
    }
}

/// An address as HTML has the tags of links alone.
proof fn lemma_link_has_link_tags(url: Seq<char>, is_url: bool)
    ensures
        only_link_tags(html::link_html(url, is_url)),
{
    let safe = html::escaped(url);
    safety::law_escaped_text_is_inert(url);
    if is_url {
        let open = "<a href=\""@;
        let mid = "\" target=\"_blank\" rel=\"noopener\">"@;
        let close = "</a>"@;
        reveal_strlit("<a href=\"");
        reveal_strlit("\" target=\"_blank\" rel=\"noopener\">");
        reveal_strlit("</a>");
        safety::lemma_tag_at(open, 0, open);
        safety::lemma_tag_at(close, 0, close);
        assert(only_link_tags(safe));
        lemma_link_tags_concat(open, safe);
        lemma_link_tags_concat(open + safe, mid);
        lemma_link_tags_concat(open + safe + mid, safe);
        lemma_link_tags_concat(open + safe + mid + safe, close);
    }
}

proof fn lemma_linked_has_link_tags(s: Seq<char>)
    ensures
        only_link_tags(html::linked(s)),
    decreases s.len(),
{
    match html::link_start(s) {
        None => {
            safety::law_escaped_text_is_inert(s);
        },
        Some(i) => {
            html::lemma_leading_link(s);
            let front = html::escaped(s.take(i));
            let url = html::leading_link(s.skip(i));
            let is_url = trusted::url_parsed(url) is Ok;
            let next = s.skip(i + url.len());
            safety::law_escaped_text_is_inert(s.take(i));
            assert(only_link_tags(front));
            lemma_link_has_link_tags(url, is_url);
            lemma_linked_has_link_tags(next);
            lemma_link_tags_concat(front, html::link_html(url, is_url));
            lemma_link_tags_concat(front + html::link_html(url, is_url), html::linked(next));
        },
    }
}

/// Making links keeps a text: its HTML is that of its pieces, which read the text
/// one after another, and without the tags, which are those of links alone, it is
/// the escaped text. Every link is a URL that begins with `http://` or `https://`,
/// and reads as its own address. Where a text holds no such beginning, it is escaped
/// and nothing more.
pub proof fn law_links_keep_the_text(s: Seq<char>)
    ensures
        without_tags(html::linked(s)) == html::escaped(s),
        only_link_tags(html::linked(s)),
        html::linked(s) == rendered(pieces(s)),
        s == sources(pieces(s)),
        forall|k: int|
            0 <= k < pieces(s).len() ==> match #[trigger] pieces(s)[k] {
                Piece::Link(url) => is_web(url) && trusted::url_parsed(url) is Ok,
                Piece::Plain(_) => true,
            },
        !text::contains(s, "https://"@) && !text::contains(s, "http://"@) ==> html::linked(s)
            == html::escaped(s),
{
    lemma_without_tags(s);
    lemma_linked_has_link_tags(s);
    lemma_pieces(s);
}

/// A bracket between two texts parts what is found in them.
proof fn lemma_find_around_bracket(a: Seq<char>, b: Seq<char>, p: Seq<char>)
    requires
        p.len() > 0,
        !p.contains('['),
    ensures
        text::find(a + seq!['['] + b, p) == match text::find(a, p) {
            Some(i) => Some(i),
            None => match text::find(b, p) {
                Some(j) => Some(a.len() + 1 + j),
                None => None,
            },
        },
    decreases a.len(),
{
    let all = a + seq!['['] + b;
    let n = p.len() as int;
    if text::starts_with(all, p) {
        if n > a.len() {
            assert(all.take(n)[a.len() as int] == '[');
            assert(p[a.len() as int] == '[');
        }
        assert(a.take(n) =~= all.take(n));
    } else {
        if text::starts_with(a, p) {
            assert(all.take(n) =~= a.take(n));
        }
        if a.len() == 0 {
            assert(all.drop_first() =~= b);
            assert(text::find(a, p) is None);
        } else {
            assert(all.drop_first() =~= a.drop_first() + seq!['['] + b);
            lemma_find_around_bracket(a.drop_first(), b, p);
        }
    }
}

/// No address goes beyond a bracket.
proof fn lemma_span_before_bracket(a: Seq<char>, b: Seq<char>)
    ensures
        html::link_span(a + seq!['['] + b) == html::link_span(a),
    decreases a.len(),
{
    let all = a + seq!['['] + b;
    if a.len() == 0 {
        assert(all[0] == '[');
    } else {
        assert(all[0] == a[0]);
        assert(all.drop_first() =~= a.drop_first() + seq!['['] + b);
        lemma_span_before_bracket(a.drop_first(), b);
    }
}

/// A bracket between two texts parts the addresses that are found in them.
proof fn lemma_start_around_bracket(a: Seq<char>, b: Seq<char>)
    ensures
        html::link_start(a + seq!['['] + b) == match html::link_start(a) {
            Some(i) => Some(i),
            None => match html::link_start(b) {
                Some(j) => Some(a.len() + 1 + j),
                None => None,
            },
        },
{
    reveal_strlit("https://");
    reveal_strlit("http://");
    lemma_find_around_bracket(a, b, "https://"@);
    lemma_find_around_bracket(a, b, "http://"@);
    text::lemma_find(a, "https://"@);
    text::lemma_find(a, "http://"@);
    text::lemma_find(b, "https://"@);
    text::lemma_find(b, "http://"@);
}

/// The address at the front of a text does not change with what follows a bracket.
proof fn lemma_leading_before_bracket(a: Seq<char>, b: Seq<char>)
    ensures
        html::leading_link(a + seq!['['] + b) == html::leading_link(a),
{
    lemma_span_before_bracket(a, b);
    html::lemma_link_span(a);
    let n = html::link_span(a);
    assert((a + seq!['['] + b).take(n) =~= a.take(n));
}

/// The escaped form of a text with a bracket in it.
proof fn lemma_escaped_around_bracket(a: Seq<char>, b: Seq<char>)
    ensures
        html::escaped(a + seq!['['] + b) == html::escaped(a) + seq!['['] + html::escaped(b),
{
    let bracket = seq!['['];
    assert(html::escaped(bracket) =~= bracket) by {
        assert(bracket.drop_last() =~= Seq::<char>::empty());
        reveal_with_fuel(html::escaped, 2);
    }
    lemma_escaped_concat(a, bracket);
    lemma_escaped_concat(a + bracket, b);
}

/// Where there is no address before a bracket, links begin behind it.
proof fn lemma_linked_behind_bracket(a: Seq<char>, b: Seq<char>)
    requires
        html::link_start(a) is None,
    ensures
        html::linked(a + seq!['['] + b) == html::linked(a) + seq!['['] + html::linked(b),
{
    let bracket = seq!['['];
    let all = a + bracket + b;
    lemma_start_around_bracket(a, b);
    match html::link_start(b) {
        Some(j) => {
            html::lemma_leading_link(b);
            let i = a.len() + 1 + j;
            let url = html::leading_link(b.skip(j));
            let link = html::link_html(url, trusted::url_parsed(url) is Ok);
            let rest = html::linked(b.skip(j + url.len()));
            let front = html::escaped(b.take(j));
            assert(all.skip(i) =~= b.skip(j));
            assert(all.skip(i + url.len()) =~= b.skip(j + url.len()));
            assert(all.take(i) =~= a + bracket + b.take(j));
            lemma_escaped_around_bracket(a, b.take(j));
            assert(html::linked(all) == html::escaped(a) + bracket + front + link + rest);
            assert(html::linked(b) == front + link + rest);
            assert(html::escaped(a) + bracket + front + link + rest =~= html::escaped(a) + bracket
                + (front + link + rest));
        },
        None => {
            lemma_escaped_around_bracket(a, b);
        },
    }
}

/// A bracket parts the links of a text.
proof fn lemma_linked_around_bracket(a: Seq<char>, b: Seq<char>)
    ensures
        html::linked(a + seq!['['] + b) == html::linked(a) + seq!['['] + html::linked(b),
    decreases a.len(),
{
    let bracket = seq!['['];
    let all = a + bracket + b;
    match html::link_start(a) {
        Some(i) => {
            html::lemma_leading_link(a);
            lemma_start_around_bracket(a, b);
            let tail = a.skip(i);
            let url = html::leading_link(tail);
            let next = a.skip(i + url.len());
            assert(all.skip(i) =~= tail + bracket + b);
            lemma_leading_before_bracket(tail, b);
            assert(all.take(i) =~= a.take(i));
            assert(all.skip(i + url.len()) =~= next + bracket + b);
            lemma_linked_around_bracket(next, b);
            let front = html::escaped(a.take(i));
            let link = html::link_html(url, trusted::url_parsed(url) is Ok);
            let rest = html::linked(next);
            assert(html::linked(all) == front + link + (rest + bracket + html::linked(b)));
            assert(html::linked(a) == front + link + rest);
            assert(front + link + (rest + bracket + html::linked(b)) =~= front + link + rest
                + bracket + html::linked(b));
        },
        None => {
            lemma_linked_behind_bracket(a, b);
        },
    }
}

/// None of the names in brackets is that of an emoji with a picture from the host
/// that serves them.
pub open spec fn has_no_emoji(s: Seq<char>, emojis: JsonView) -> bool {
    forall|i: int|
        0 <= i < s.len() && #[trigger] s[i] == '[' ==> match html::bracketed(s.skip(i)) {
            Some(name) => html::emoji_url(emojis, name) is None,
            None => true,
        }
}

proof fn lemma_weibo_without_emoji(s: Seq<char>, emojis: JsonView)
    requires
        has_no_emoji(s, emojis),
    ensures
        html::weibo(s, emojis) == html::linked(s),
    decreases s.len(),
{
    text::lemma_index_of(s, '[');
    let i = text::index_of(s, '[');
    if i < s.len() {
        let front = s.take(i);
        let rest = s.skip(i).skip(1);
        assert(s[i] == '[');
        assert forall|k: int| 0 <= k < rest.len() && #[trigger] rest[k] == '[' implies match
            html::bracketed(rest.skip(k)) {
            Some(name) => html::emoji_url(emojis, name) is None,
            None => true,
        } by {
            assert(s[i + 1 + k] == '[');
            assert(rest.skip(k) =~= s.skip(i + 1 + k));
        }
        lemma_weibo_without_emoji(rest, emojis);
        lemma_linked_around_bracket(front, rest);
        assert(s =~= front + seq!['['] + rest);
        reveal_strlit("[");
        assert("["@ =~= seq!['[']);
    }
}

/// A text without emoji, or from another source than the one that has them, is a
/// text with links and nothing more: names in brackets that are not known, or have
/// no picture from the right host, stay as they are, and no picture is shown.
pub proof fn law_unknown_names_stay_text(s: Seq<char>, source: Seq<char>, emojis: JsonView)
    requires
        source != "微博"@ || has_no_emoji(s, emojis),
    ensures
        html::social_html(s, source, emojis) == html::linked(s),
        !text::contains(html::social_html(s, source, emojis), "<img"@),
{
    let all = html::linked(s);
    lemma_linked_has_link_tags(s);
    text::lemma_find(all, "<img"@);
    if let Some(i) = text::find(all, "<img"@) {
        reveal_strlit("<img");
        reveal_strlit("<a href=\"");
        reveal_strlit("</a>");
        let tail = all.skip(i);
        assert(tail.take(4)[0] == '<' && tail.take(4)[1] == 'i');
        assert(all[i] == '<' && all[i + 1] == 'i');
        if text::starts_with(tail, "</a>"@) {
            assert(tail.take(4)[1] == '/');
        } else {
            assert(tail.take(9)[1] == 'a');
        }
    }
    if source == "微博"@ {
        lemma_weibo_without_emoji(s, emojis);
    }
}

/// A character that ends a web address: white space, a bracket or a quotation mark, or
/// one of the marks of Chinese punctuation.
pub open spec fn ends_address(c: char) -> bool {
    text::is_space(c) || "<>\"'[]（）。，；！？、"@.contains(c)
}

/// A mark that closes a sentence rather than an address.
pub open spec fn closes_sentence(c: char) -> bool {
    ".,;!?)"@.contains(c)
}

proof fn lemma_marks(c: char)
    ensures
        ends_address(c) <==> html::is_link_stop(c),
        closes_sentence(c) <==> html::is_link_tail(c),
{
    reveal_strlit("<>\"'[]（）。，；！？、");
    reveal_strlit(".,;!?)");
    let stops = "<>\"'[]（）。，；！？、"@;
    let tails = ".,;!?)"@;
    assert(stops.len() == 14 && tails.len() == 6);
    assert(stops[0] == '<' && stops[1] == '>' && stops[2] == '"' && stops[3] == '\'' && stops[4]
        == '[' && stops[5] == ']' && stops[6] == '（' && stops[7] == '）' && stops[8] == '。'
        && stops[9] == '，' && stops[10] == '；' && stops[11] == '！' && stops[12] == '？' && stops[13]
        == '、');
    assert(tails[0] == '.' && tails[1] == ',' && tails[2] == ';' && tails[3] == '!' && tails[4]
        == '?' && tails[5] == ')');
}

/// How far an address goes.
proof fn lemma_span_is(s: Seq<char>, n: int)
    requires
        0 <= n <= s.len(),
        forall|k: int| 0 <= k < n ==> !html::is_link_stop(#[trigger] s[k]),
        n < s.len() ==> html::is_link_stop(s[n]),
    ensures
        html::link_span(s) == n,
    decreases n,
{
    if n > 0 {
        let rest = s.drop_first();
        assert(!html::is_link_stop(s[0]));
        assert forall|k: int| 0 <= k < n - 1 implies !html::is_link_stop(#[trigger] rest[k]) by {
            assert(rest[k] == s[k + 1]);
        }
        lemma_span_is(rest, n - 1);
    }
}

/// Marks at the end of an address go, and no more.
proof fn lemma_trim_is(url: Seq<char>, marks: Seq<char>)
    requires
        url.len() > 0,
        !html::is_link_tail(url.last()),
        forall|k: int| 0 <= k < marks.len() ==> html::is_link_tail(#[trigger] marks[k]),
    ensures
        html::trim_link(url + marks) == url,
    decreases marks.len(),
{
    let all = url + marks;
    if marks.len() == 0 {
        assert(all =~= url);
    } else {
        assert(html::is_link_tail(marks[marks.len() - 1]));
        assert(all.last() == marks.last());
        assert(all.drop_last() =~= url + marks.drop_last());
        lemma_trim_is(url, marks.drop_last());
    }
}

/// The first address of a text begins where no other text that begins like one does.
proof fn lemma_first_address(before: Seq<char>, url: Seq<char>, rest: Seq<char>)
    requires
        is_web(url),
        forall|i: int| 0 <= i < before.len() ==> !is_web(#[trigger] (before + url).skip(i)),
    ensures
        html::link_start(before + url + rest) == Some(before.len() as int),
{
    let all = before + url + rest;
    let n = before.len() as int;
    reveal_strlit("https://");
    reveal_strlit("http://");
    assert forall|i: int| 0 <= i < n implies !text::starts_with(#[trigger] all.skip(i), "https://"@)
        && !text::starts_with(all.skip(i), "http://"@) by {
        let near = (before + url).skip(i);
        assert(!is_web(near));
        if text::starts_with(all.skip(i), "https://"@) {
            assert(near.take(8) =~= all.skip(i).take(8));
        }
        if text::starts_with(all.skip(i), "http://"@) {
            assert(near.take(7) =~= all.skip(i).take(7));
        }
    }
    let tail = all.skip(n);
    assert(tail =~= url + rest);
    text::lemma_find(all, "https://"@);
    text::lemma_find(all, "http://"@);
    if text::starts_with(url, "https://"@) {
        assert(tail.take(8) =~= url.take(8));
        text::lemma_find_at(all, "https://"@, n);
    } else {
        assert(tail.take(7) =~= url.take(7));
        text::lemma_find_at(all, "http://"@, n);
    }
}

/// Every web address of a text becomes a link, where it is a URL, and stays text where
/// it is none: an address goes on to the first character that ends addresses, but for
/// the marks at its end that close the sentence. The link reads as the address and
/// leads there. What stands before the first address is escaped, and what follows is
/// read in the same way.
pub proof fn law_addresses_become_links(
    before: Seq<char>,
    url: Seq<char>,
    marks: Seq<char>,
    after: Seq<char>,
)
    requires
        text::starts_with(url, "https://"@) || text::starts_with(url, "http://"@),
        forall|i: int| 0 <= i < before.len() ==> !is_web(#[trigger] (before + url).skip(i)),
        forall|i: int| 0 <= i < url.len() ==> !ends_address(#[trigger] url[i]),
        !closes_sentence(url.last()),
        forall|i: int| 0 <= i < marks.len() ==> closes_sentence(#[trigger] marks[i]),
        after.len() > 0 ==> ends_address(after[0]),
    ensures
        html::linked(before + url + marks + after) == html::escaped(before) + (if trusted::url_parsed(
            url,
        ) is Ok {
            "<a href=\""@ + html::escaped(url) + "\" target=\"_blank\" rel=\"noopener\">"@
                + html::escaped(url) + "</a>"@
        } else {
            html::escaped(url)
        }) + html::linked(marks + after),
{
    let all = before + url + marks + after;
    let n = before.len() as int;
    reveal_strlit("https://");
    reveal_strlit("http://");
    assert(all =~= before + url + (marks + after));
    lemma_first_address(before, url, marks + after);
    let tail = all.skip(n);
    let head = url + marks;
    assert(tail =~= head + after);
    lemma_marks(url.last());
    assert forall|k: int| 0 <= k < marks.len() implies html::is_link_tail(#[trigger] marks[k]) by {
        assert(closes_sentence(marks[k]));
        lemma_marks(marks[k]);
    }
    assert forall|k: int| 0 <= k < head.len() implies !html::is_link_stop(#[trigger] tail[k]) by {
        if k < url.len() {
            assert(tail[k] == url[k]);
            lemma_marks(url[k]);
        } else {
            assert(tail[k] == marks[k - url.len()]);
            assert(html::is_link_tail(marks[k - url.len()]));
        }
    }
    if after.len() > 0 {
        lemma_marks(after[0]);
        assert(tail[head.len() as int] == after[0]);
    }
    lemma_span_is(tail, head.len() as int);
    assert(tail.take(head.len() as int) =~= head);
    lemma_trim_is(url, marks);
    assert(html::leading_link(tail) == url);
    assert(all.take(n) =~= before);
    assert(all.skip(n + url.len()) =~= marks + after);
}

} // verus!
