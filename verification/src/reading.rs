//! What a reader sees of HTML, and what its tags carry: a way to read rendered
//! notes that does not depend on how they were written.
use vstd::prelude::*;

use crate::html;
use crate::json::JsonView;
use crate::links;
use crate::safety;
use crate::text;
use crate::trusted;

verus! {

/// The value of an attribute among the parts of a tag between its quotes: the part
/// behind the one that ends with the name and an equals sign.
pub open spec fn value_among(parts: Seq<Seq<char>>, name: Seq<char>) -> Option<Seq<char>>
    decreases parts.len(),
{
    if parts.len() < 2 {
        None
    } else if text::ends_with(parts[0], seq![' '] + name + seq!['=']) {
        Some(parts[1])
    } else {
        value_among(parts.skip(2), name)
    }
}

/// The value of an attribute of a tag, as it is written between the quotes.
pub open spec fn attribute(tag: Seq<char>, name: Seq<char>) -> Option<Seq<char>> {
    value_among(text::split(tag, '"'), name)
}

/// What a tag itself shows: a picture the text that stands for it, and any other
/// tag nothing.
pub open spec fn tag_text(tag: Seq<char>) -> Seq<char> {
    if text::starts_with(tag, "<img "@) {
        match attribute(tag, "alt"@) {
            Some(alt) => alt,
            None => Seq::empty(),
        }
    } else {
        Seq::empty()
    }
}

/// What a reader sees of HTML, with entities as they are written: the text outside
/// its tags, and for every picture the text that stands for it.
pub open spec fn visible(s: Seq<char>) -> Seq<char>
    decreases s.len(),
{
    if s.len() == 0 {
        Seq::empty()
    } else if s[0] == '<' {
        let end = text::index_of(s, '>');
        if 0 <= end < s.len() {
            tag_text(s.take(end + 1)) + visible(s.skip(end + 1))
        } else {
            Seq::empty()
        }
    } else {
        seq![s[0]] + visible(s.drop_first())
    }
}

/// The tags of HTML, in order.
pub open spec fn tags(s: Seq<char>) -> Seq<Seq<char>>
    decreases s.len(),
{
    if s.len() == 0 {
        Seq::empty()
    } else if s[0] == '<' {
        let end = text::index_of(s, '>');
        if 0 <= end < s.len() {
            seq![s.take(end + 1)] + tags(s.skip(end + 1))
        } else {
            Seq::empty()
        }
    } else {
        tags(s.drop_first())
    }
}

/// HTML in which every tag is closed: what follows it is read by itself.
pub open spec fn is_closed(a: Seq<char>) -> bool {
    &&& forall|b: Seq<char>| #[trigger] visible(a + b) == visible(a) + visible(b)
    &&& forall|b: Seq<char>| #[trigger] tags(a + b) == tags(a) + tags(b)
}

/// Text is seen as it is.
pub proof fn lemma_text_is_closed(a: Seq<char>)
    requires
        forall|i: int| 0 <= i < a.len() ==> #[trigger] a[i] != '<',
    ensures
        is_closed(a),
        visible(a) == a,
        tags(a) == Seq::<Seq<char>>::empty(),
{
    assert forall|b: Seq<char>| #[trigger] visible(a + b) == a + visible(b) by {
        lemma_text_before(a, b);
    }
    assert forall|b: Seq<char>| #[trigger] tags(a + b) == tags(b) by {
        lemma_text_before(a, b);
    }
    let none = Seq::<char>::empty();
    assert(visible(a + none) == a + visible(none));
    assert(tags(a + none) == tags(none));
    assert(a + none =~= a);
    assert forall|b: Seq<char>| #[trigger] tags(a + b) == tags(a) + tags(b) by {
        assert(tags(a) + tags(b) =~= tags(b));
    }
}

proof fn lemma_text_before(a: Seq<char>, b: Seq<char>)
    requires
        forall|i: int| 0 <= i < a.len() ==> #[trigger] a[i] != '<',
    ensures
        visible(a + b) == a + visible(b),
        tags(a + b) == tags(b),
    decreases a.len(),
{
    if a.len() == 0 {
        assert(a + b =~= b);
        assert(a + visible(b) =~= visible(b));
    } else {
        let rest = a.drop_first();
        assert((a + b)[0] == a[0]);
        assert((a + b).drop_first() =~= rest + b);
        assert forall|i: int| 0 <= i < rest.len() implies #[trigger] rest[i] != '<' by {
            assert(rest[i] == a[i + 1]);
        }
        lemma_text_before(rest, b);
        assert(seq![a[0]] + (rest + visible(b)) =~= a + visible(b));
    }
}

/// Escaped text is seen as it is.
pub proof fn lemma_escaped_is_closed(s: Seq<char>)
    ensures
        is_closed(html::escaped(s)),
        visible(html::escaped(s)) == html::escaped(s),
        tags(html::escaped(s)) == Seq::<Seq<char>>::empty(),
{
    safety::law_escaped_text_is_inert(s);
    lemma_text_is_closed(html::escaped(s));
}

/// One tag is seen as what it itself shows.
pub proof fn lemma_tag_is_closed(tag: Seq<char>)
    requires
        tag.len() > 1,
        tag[0] == '<',
        tag.last() == '>',
        forall|i: int| 0 <= i < tag.len() - 1 ==> #[trigger] tag[i] != '>',
    ensures
        is_closed(tag),
        visible(tag) == tag_text(tag),
        tags(tag) == seq![tag],
{
    assert forall|b: Seq<char>|
        visible(tag + b) == tag_text(tag) + visible(b) && #[trigger] tags(tag + b) == seq![tag]
            + tags(b) by {
        let s = tag + b;
        let end = tag.len() - 1;
        assert(s[end] == '>');
        assert forall|j: int| 0 <= j < end implies s[j] != '>' by {
            assert(s[j] == tag[j]);
        }
        text::lemma_index_of_at(s, '>', end);
        assert(s.skip(end + 1) =~= b);
        assert(s.take(end + 1) =~= tag);
    }
    let none = Seq::<char>::empty();
    assert(tags(tag + none) == seq![tag] + tags(none));
    assert(tag + none =~= tag);
    assert(tag_text(tag) + none =~= tag_text(tag));
    assert(seq![tag] + tags(none) =~= seq![tag]);
    assert forall|b: Seq<char>| #[trigger] visible(tag + b) == visible(tag) + visible(b) by {
        assert(tags(tag + b) == seq![tag] + tags(b));
    }
}

/// A tag that is no picture shows nothing.
pub proof fn lemma_plain_tag(tag: Seq<char>)
    requires
        tag.len() > 1,
        tag[0] == '<',
        tag[1] != 'i',
        tag.last() == '>',
        forall|i: int| 0 <= i < tag.len() - 1 ==> #[trigger] tag[i] != '>',
    ensures
        is_closed(tag),
        visible(tag) == Seq::<char>::empty(),
        tags(tag) == seq![tag],
{
    lemma_tag_is_closed(tag);
    reveal_strlit("<img ");
    if text::starts_with(tag, "<img "@) {
        assert(tag.take(5)[1] == 'i');
    }
}

/// A tag with one value in it that holds no tag of its own.
pub proof fn lemma_valued_tag(front: Seq<char>, value: Seq<char>, back: Seq<char>)
    requires
        front.len() > 1,
        front[0] == '<',
        front[1] != 'i',
        back.len() > 0,
        back.last() == '>',
        forall|i: int| 0 <= i < front.len() ==> #[trigger] front[i] != '>',
        forall|i: int| 0 <= i < value.len() ==> #[trigger] value[i] != '>',
        forall|i: int| 0 <= i < back.len() - 1 ==> #[trigger] back[i] != '>',
    ensures
        is_closed(front + value + back),
        visible(front + value + back) == Seq::<char>::empty(),
        tags(front + value + back) == seq![front + value + back],
{
    let tag = front + value + back;
    assert(tag[0] == front[0] && tag[1] == front[1] && tag.last() == back.last());
    assert forall|i: int| 0 <= i < tag.len() - 1 implies #[trigger] tag[i] != '>' by {
        if i < front.len() {
            assert(tag[i] == front[i]);
        } else if i < front.len() + value.len() {
            assert(tag[i] == value[i - front.len()]);
        } else {
            assert(tag[i] == back[i - front.len() - value.len()]);
        }
    }
    lemma_plain_tag(tag);
}

/// Closed pieces of HTML in a row are closed, and are seen one after another.
pub proof fn lemma_closed_concat(a: Seq<char>, b: Seq<char>)
    requires
        is_closed(a),
        is_closed(b),
    ensures
        is_closed(a + b),
        visible(a + b) == visible(a) + visible(b),
        tags(a + b) == tags(a) + tags(b),
{
    assert forall|c: Seq<char>| #[trigger] visible((a + b) + c) == visible(a + b) + visible(c) by {
        assert((a + b) + c =~= a + (b + c));
        assert(visible(a + (b + c)) == visible(a) + visible(b + c));
        assert(visible(a) + (visible(b) + visible(c)) =~= visible(a) + visible(b) + visible(c));
    }
    assert forall|c: Seq<char>| #[trigger] tags((a + b) + c) == tags(a + b) + tags(c) by {
        assert((a + b) + c =~= a + (b + c));
        assert(tags(a + (b + c)) == tags(a) + tags(b + c));
        assert(tags(a) + (tags(b) + tags(c)) =~= tags(a) + tags(b) + tags(c));
    }
}

/// Three closed pieces of HTML in a row.
pub proof fn lemma_closed_three(a: Seq<char>, b: Seq<char>, c: Seq<char>)
    requires
        is_closed(a),
        is_closed(b),
        is_closed(c),
    ensures
        is_closed(a + b + c),
        visible(a + b + c) == visible(a) + visible(b) + visible(c),
        tags(a + b + c) == tags(a) + tags(b) + tags(c),
{
    lemma_closed_concat(a, b);
    lemma_closed_concat(a + b, c);
}

/// Nothing is closed, and seen as nothing.
pub proof fn lemma_nothing_is_closed()
    ensures
        is_closed(Seq::<char>::empty()),
        visible(Seq::<char>::empty()) == Seq::<char>::empty(),
        tags(Seq::<char>::empty()) == Seq::<Seq<char>>::empty(),
{
    lemma_text_is_closed(Seq::empty());
}

/// A link is seen as its text.
proof fn lemma_link_is_seen(url: Seq<char>, is_url: bool)
    ensures
        is_closed(html::link_html(url, is_url)),
        visible(html::link_html(url, is_url)) == html::escaped(url),
{
    let safe = html::escaped(url);
    safety::law_escaped_text_is_inert(url);
    lemma_escaped_is_closed(url);
    if is_url {
        reveal_strlit("<a href=\"");
        reveal_strlit("\" target=\"_blank\" rel=\"noopener\">");
        reveal_strlit("</a>");
        let front = "<a href=\""@;
        let back = "\" target=\"_blank\" rel=\"noopener\">"@;
        lemma_valued_tag(front, safe, back);
        lemma_plain_tag("</a>"@);
        let open = front + safe + back;
        lemma_closed_concat(open, safe);
        lemma_closed_concat(open + safe, "</a>"@);
        assert(visible(html::link_html(url, is_url)) =~= safe);
    }
}

/// A text with links is seen as the escaped text.
pub proof fn lemma_linked_is_seen(s: Seq<char>)
    ensures
        is_closed(html::linked(s)),
        visible(html::linked(s)) == html::escaped(s),
    decreases s.len(),
{
    match html::link_start(s) {
        None => {
            lemma_escaped_is_closed(s);
        },
        Some(i) => {
            html::lemma_leading_link(s);
            let front = s.take(i);
            let url = html::leading_link(s.skip(i));
            let next = s.skip(i + url.len());
            let is_url = trusted::url_parsed(url) is Ok;
            let link = html::link_html(url, is_url);
            lemma_escaped_is_closed(front);
            lemma_link_is_seen(url, is_url);
            lemma_linked_is_seen(next);
            lemma_closed_concat(html::escaped(front), link);
            lemma_closed_concat(html::escaped(front) + link, html::linked(next));
            assert(s =~= front + url + next);
            links::lemma_escaped_concat(front + url, next);
            links::lemma_escaped_concat(front, url);
        },
    }
}

/// HTML text with its entities as the characters that they stand for.
pub open spec fn unescaped(s: Seq<char>) -> Seq<char>
    decreases s.len(),
{
    proof {
        reveal_strlit("&amp;");
        reveal_strlit("&lt;");
        reveal_strlit("&gt;");
        reveal_strlit("&quot;");
        reveal_strlit("&#39;");
    }
    if s.len() == 0 {
        Seq::empty()
    } else if text::starts_with(s, "&amp;"@) {
        seq!['&'] + unescaped(s.skip(5))
    } else if text::starts_with(s, "&lt;"@) {
        seq!['<'] + unescaped(s.skip(4))
    } else if text::starts_with(s, "&gt;"@) {
        seq!['>'] + unescaped(s.skip(4))
    } else if text::starts_with(s, "&quot;"@) {
        seq!['"'] + unescaped(s.skip(6))
    } else if text::starts_with(s, "&#39;"@) {
        seq!['\''] + unescaped(s.skip(5))
    } else {
        seq![s[0]] + unescaped(s.drop_first())
    }
}

/// What stands for a character is read as that character, whatever follows.
proof fn lemma_entity_is_read(c: char, rest: Seq<char>)
    ensures
        unescaped(html::entity(c) + rest) == seq![c] + unescaped(rest),
{
    let e = html::entity(c);
    let s = e + rest;
    reveal_strlit("&amp;");
    reveal_strlit("&lt;");
    reveal_strlit("&gt;");
    reveal_strlit("&quot;");
    reveal_strlit("&#39;");
    assert(s.take(e.len() as int) =~= e);
    assert(s.skip(e.len() as int) =~= rest);
    if c == '&' || c == '<' || c == '>' || c == '"' || c == '\'' {
        assert(s[1] == e[1]);
        assert(text::starts_with(s, "&amp;"@) ==> s.take(5)[1] == 'a');
        assert(text::starts_with(s, "&lt;"@) ==> s.take(4)[1] == 'l');
        assert(text::starts_with(s, "&gt;"@) ==> s.take(4)[1] == 'g');
        assert(text::starts_with(s, "&quot;"@) ==> s.take(6)[1] == 'q');
        assert(text::starts_with(s, "&#39;"@) ==> s.take(5)[1] == '#');
    } else {
        assert(s[0] == c);
        assert(text::starts_with(s, "&amp;"@) ==> s.take(5)[0] == '&');
        assert(text::starts_with(s, "&lt;"@) ==> s.take(4)[0] == '&');
        assert(text::starts_with(s, "&gt;"@) ==> s.take(4)[0] == '&');
        assert(text::starts_with(s, "&quot;"@) ==> s.take(6)[0] == '&');
        assert(text::starts_with(s, "&#39;"@) ==> s.take(5)[0] == '&');
        assert(s.drop_first() =~= rest);
    }
}

/// An escaped text is read as the text, whatever follows.
proof fn lemma_escaped_is_read(s: Seq<char>, rest: Seq<char>)
    ensures
        unescaped(html::escaped(s) + rest) == s + unescaped(rest),
    decreases s.len(),
{
    if s.len() == 0 {
        assert(html::escaped(s) + rest =~= rest);
        assert(s + unescaped(rest) =~= unescaped(rest));
    } else {
        let front = s.drop_last();
        let last = html::entity(s.last());
        assert(html::escaped(s) + rest =~= html::escaped(front) + (last + rest));
        lemma_escaped_is_read(front, last + rest);
        lemma_entity_is_read(s.last(), rest);
        assert(front + (seq![s.last()] + unescaped(rest)) =~= s + unescaped(rest));
    }
}

/// Escaping keeps a text: with its entities read as the characters that they stand
/// for, the escaped text is the text.
pub proof fn law_escaped_text_reads_the_same(s: Seq<char>)
    ensures
        unescaped(html::escaped(s)) == s,
{
    lemma_escaped_is_read(s, Seq::empty());
    assert(html::escaped(s) + Seq::<char>::empty() =~= html::escaped(s));
    assert(s + unescaped(Seq::<char>::empty()) =~= s);
}

/// The part before the first mark between the parts of a text is its first part.
proof fn lemma_split_front(first: Seq<char>, c: char, rest: Seq<char>)
    requires
        !first.contains(c),
    ensures
        text::split(first + seq![c] + rest, c) == seq![first] + text::split(rest, c),
{
    let all = first + seq![c] + rest;
    let n = first.len() as int;
    assert(all[n] == c);
    assert forall|j: int| 0 <= j < n implies all[j] != c by {
        assert(all[j] == first[j]);
        assert(first.contains(first[j]));
    }
    text::lemma_index_of_at(all, c, n);
    assert(all.take(n) =~= first);
    assert(all.skip(n + 1) =~= rest);
}

/// An attribute of a tag: what stands before its value, the value in its quotes, and
/// what follows.
pub open spec fn with_value(first: Seq<char>, value: Seq<char>, rest: Seq<char>) -> Seq<char> {
    first + seq!['"'] + value + seq!['"'] + rest
}

/// The attributes of a tag are read one after another.
pub proof fn lemma_attribute_step(
    first: Seq<char>,
    value: Seq<char>,
    rest: Seq<char>,
    name: Seq<char>,
)
    requires
        !first.contains('"'),
        !value.contains('"'),
    ensures
        attribute(first + seq!['"'] + value + seq!['"'] + rest, name) == if text::ends_with(
            first,
            seq![' '] + name + seq!['='],
        ) {
            Some(value)
        } else {
            attribute(rest, name)
        },
{
    let q = seq!['"'];
    let all = first + q + value + q + rest;
    assert(all =~= first + q + (value + q + rest));
    lemma_split_front(first, '"', value + q + rest);
    lemma_split_front(value, '"', rest);
    let parts = text::split(all, '"');
    let tail = text::split(rest, '"');
    assert(parts == seq![first] + (seq![value] + tail));
    assert(parts[0] == first && parts[1] == value);
    assert(parts.skip(2) =~= tail);
    text::lemma_split_parts(rest, '"');
}

/// The last of a text is not what other text ends with.
pub proof fn lemma_other_name(first: Seq<char>, name: Seq<char>, i: int)
    requires
        1 <= i <= name.len(),
        i < first.len(),
        first[first.len() - 1 - i] != name[name.len() - i],
    ensures
        !text::ends_with(first, seq![' '] + name + seq!['=']),
{
    let mark = seq![' '] + name + seq!['='];
    if text::ends_with(first, mark) {
        let tail = first.skip(first.len() - mark.len());
        assert(tail[mark.len() - 1 - i] == mark[mark.len() - 1 - i]);
        assert(mark[mark.len() - 1 - i] == name[name.len() - i]);
    }
}

/// What stands behind the attributes of an emoji that change from one to another.
spec fn emoji_tail() -> Seq<char> {
    " width=\"20\" height=\"20\" loading=\"lazy\" referrerpolicy=\"no-referrer\">"@
}

/// The attributes of an emoji that change from one to another, and what follows.
spec fn emoji_rest(src: Seq<char>, alt: Seq<char>) -> Seq<char> {
    let q = seq!['"'];
    " src="@ + q + src + q + (" alt="@ + q + alt + q + (" title="@ + q + alt + q + emoji_tail()))
}

/// Pieces of an emoji, put together from the left or from the right.
proof fn lemma_emoji_pieces(
    a: Seq<char>,
    src: Seq<char>,
    b: Seq<char>,
    alt: Seq<char>,
    c: Seq<char>,
    q: Seq<char>,
    tail: Seq<char>,
)
    ensures
        (a + q) + src + (q + b + q) + alt + (q + c + q) + alt + (q + tail) == a + q + src + q + (b
            + q + alt + q + (c + q + alt + q + tail)),
{
    let x = c + q + alt + q + tail;
    let y = b + q + alt + q + x;
    assert((q + c + q) + (alt + (q + tail)) =~= q + x);
    assert((q + b + q) + (alt + (q + x)) =~= q + y);
    let l = a + q + src;
    let k = (q + b + q) + (alt + (q + x));
    assert(l + (q + y) =~= l + q + y);
    assert(l + (q + b + q) + alt + (q + x) =~= l + k);
    let m = l + (q + b + q) + alt;
    assert(m + (q + c + q) + alt + (q + tail) =~= m + ((q + c + q) + (alt + (q + tail))));
}

/// The picture of an emoji as a tag with its attributes.
proof fn lemma_emoji_tag(token: Seq<char>, url: Seq<char>)
    ensures
        html::emoji_html(token, url) == "<img class="@ + seq!['"'] + "weibo-emoji"@ + seq!['"']
            + emoji_rest(html::escaped(url), html::escaped(token)),
{
    let src = html::escaped(url);
    let alt = html::escaped(token);
    let q = seq!['"'];
    reveal_strlit("<img class=\"weibo-emoji\" src=\"");
    reveal_strlit("<img class=");
    reveal_strlit("weibo-emoji");
    reveal_strlit(" src=");
    reveal_strlit("\" alt=\"");
    reveal_strlit(" alt=");
    reveal_strlit("\" title=\"");
    reveal_strlit(" title=");
    reveal_strlit("\" width=\"20\" height=\"20\" loading=\"lazy\" referrerpolicy=\"no-referrer\">");
    reveal_strlit(" width=\"20\" height=\"20\" loading=\"lazy\" referrerpolicy=\"no-referrer\">");
    let a = "<img class="@ + q + "weibo-emoji"@ + q + " src="@;
    let b = " alt="@;
    let c = " title="@;
    assert("<img class=\"weibo-emoji\" src=\""@ =~= a + q);
    assert("\" alt=\""@ =~= q + b + q);
    assert("\" title=\""@ =~= q + c + q);
    assert("\" width=\"20\" height=\"20\" loading=\"lazy\" referrerpolicy=\"no-referrer\">"@ =~= q
        + emoji_tail());
    lemma_emoji_pieces(a, src, b, alt, c, q, emoji_tail());
    let rest = b + q + alt + q + (c + q + alt + q + emoji_tail());
    let head = "<img class="@ + q + "weibo-emoji"@ + q;
    assert(head + " src="@ + q + src + q + rest =~= head + (" src="@ + q + src + q + rest));
}

/// What the attributes of an emoji are: its picture, and its name in brackets for
/// those who do not see it.
proof fn lemma_emoji_attributes(token: Seq<char>, url: Seq<char>)
    ensures
        attribute(html::emoji_html(token, url), "class"@) == Some("weibo-emoji"@),
        attribute(html::emoji_html(token, url), "src"@) == Some(html::escaped(url)),
        attribute(html::emoji_html(token, url), "alt"@) == Some(html::escaped(token)),
        attribute(html::emoji_html(token, url), "title"@) == Some(html::escaped(token)),
{
    let src = html::escaped(url);
    let alt = html::escaped(token);
    lemma_emoji_tag(token, url);
    safety::law_escaped_text_is_inert(url);
    safety::law_escaped_text_is_inert(token);
    reveal_strlit("<img class=");
    reveal_strlit("weibo-emoji");
    reveal_strlit(" src=");
    reveal_strlit(" alt=");
    reveal_strlit(" title=");
    reveal_strlit("class");
    reveal_strlit("src");
    reveal_strlit("alt");
    reveal_strlit("title");
    let q = seq!['"'];
    let last = " title="@ + q + alt + q + emoji_tail();
    let middle = " alt="@ + q + alt + q + last;
    let rest = emoji_rest(src, alt);
    assert("<img class="@.skip(4) =~= seq![' '] + "class"@ + seq!['=']);
    assert(" src="@.skip(0) =~= seq![' '] + "src"@ + seq!['=']);
    assert(" alt="@.skip(0) =~= seq![' '] + "alt"@ + seq!['=']);
    assert(" title="@.skip(0) =~= seq![' '] + "title"@ + seq!['=']);
    lemma_attribute_step("<img class="@, "weibo-emoji"@, rest, "class"@);
    lemma_attribute_step("<img class="@, "weibo-emoji"@, rest, "src"@);
    lemma_attribute_step("<img class="@, "weibo-emoji"@, rest, "alt"@);
    lemma_attribute_step("<img class="@, "weibo-emoji"@, rest, "title"@);
    lemma_other_name("<img class="@, "src"@, 1);
    lemma_other_name("<img class="@, "alt"@, 1);
    lemma_other_name("<img class="@, "title"@, 1);
    lemma_attribute_step(" src="@, src, middle, "src"@);
    lemma_attribute_step(" src="@, src, middle, "alt"@);
    lemma_attribute_step(" src="@, src, middle, "title"@);
    lemma_other_name(" src="@, "alt"@, 1);
    lemma_other_name(" src="@, "title"@, 1);
    lemma_attribute_step(" alt="@, alt, last, "alt"@);
    lemma_attribute_step(" alt="@, alt, last, "title"@);
    lemma_other_name(" alt="@, "title"@, 1);
    lemma_attribute_step(" title="@, alt, emoji_tail(), "title"@);
}

/// An emoji is seen as its name in brackets.
proof fn lemma_emoji_is_seen(token: Seq<char>, url: Seq<char>)
    ensures
        is_closed(html::emoji_html(token, url)),
        visible(html::emoji_html(token, url)) == html::escaped(token),
        text::starts_with(html::emoji_html(token, url), "<img "@),
{
    let src = html::escaped(url);
    let alt = html::escaped(token);
    let a = "<img class=\"weibo-emoji\" src=\""@;
    let b = "\" alt=\""@;
    let c = "\" title=\""@;
    let d = "\" width=\"20\" height=\"20\" loading=\"lazy\" referrerpolicy=\"no-referrer\">"@;
    reveal_strlit("<img ");
    reveal_strlit("<img class=\"weibo-emoji\" src=\"");
    reveal_strlit("\" alt=\"");
    reveal_strlit("\" title=\"");
    reveal_strlit("\" width=\"20\" height=\"20\" loading=\"lazy\" referrerpolicy=\"no-referrer\">");
    safety::law_escaped_text_is_inert(url);
    safety::law_escaped_text_is_inert(token);
    lemma_emoji_attributes(token, url);
    let front = a + src + b + alt + c + alt;
    let tag = front + d;
    lemma_no_close(a, src);
    lemma_no_close(a + src, b);
    lemma_no_close(a + src + b, alt);
    lemma_no_close(a + src + b + alt, c);
    lemma_no_close(a + src + b + alt + c, alt);
    assert forall|i: int| 0 <= i < tag.len() - 1 implies #[trigger] tag[i] != '>' by {
        if i < front.len() {
            assert(tag[i] == front[i]);
        } else {
            assert(tag[i] == d[i - front.len()]);
        }
    }
    assert(tag.last() == d.last());
    assert(tag.take(5) =~= "<img "@);
    lemma_tag_is_closed(tag);
}

/// No tag is closed in two texts in a row where none is closed in either.
pub proof fn lemma_no_close(a: Seq<char>, b: Seq<char>)
    requires
        forall|i: int| 0 <= i < a.len() ==> #[trigger] a[i] != '>',
        forall|i: int| 0 <= i < b.len() ==> #[trigger] b[i] != '>',
    ensures
        forall|i: int| 0 <= i < (a + b).len() ==> #[trigger] (a + b)[i] != '>',
{
    assert forall|i: int| 0 <= i < (a + b).len() implies #[trigger] (a + b)[i] != '>' by {
        if i < a.len() {
            assert((a + b)[i] == a[i]);
        } else {
            assert((a + b)[i] == b[i - a.len()]);
        }
    }
}

/// The escaped form of three texts in a row.
proof fn lemma_escaped_three(a: Seq<char>, b: Seq<char>, c: Seq<char>)
    ensures
        html::escaped(a + b + c) == html::escaped(a) + html::escaped(b) + html::escaped(c),
{
    links::lemma_escaped_concat(a + b, c);
    links::lemma_escaped_concat(a, b);
}

/// A Weibo text is seen as the escaped text.
proof fn lemma_weibo_is_seen(s: Seq<char>, emojis: JsonView)
    ensures
        is_closed(html::weibo(s, emojis)),
        visible(html::weibo(s, emojis)) == html::escaped(s),
    decreases s.len(),
{
    text::lemma_index_of(s, '[');
    let i = text::index_of(s, '[');
    if i < s.len() {
        let rest = s.skip(i);
        let name = html::bracketed(rest);
        let before = s.take(i);
        let front = html::linked(before);
        lemma_linked_is_seen(before);
        text::lemma_index_of(rest, ']');
        if name is Some && html::emoji_url(emojis, name->0) is Some {
            let size = (name->0.len() + 2) as int;
            let url = html::emoji_url(emojis, name->0)->0;
            let token = rest.take(size);
            let next = rest.skip(size);
            let image = html::emoji_html(token, url);
            lemma_emoji_is_seen(token, url);
            lemma_weibo_is_seen(next, emojis);
            lemma_closed_three(front, image, html::weibo(next, emojis));
            lemma_escaped_three(before, token, next);
            assert(s =~= before + token + next);
        } else {
            let next = rest.skip(1);
            reveal_strlit("[");
            lemma_text_is_closed("["@);
            lemma_weibo_is_seen(next, emojis);
            lemma_closed_three(front, "["@, html::weibo(next, emojis));
            lemma_escaped_three(before, "["@, next);
            assert(s =~= before + "["@ + next);
            assert(html::escaped("["@) =~= "["@) by {
                assert("["@.drop_last() =~= Seq::<char>::empty());
                reveal_with_fuel(html::escaped, 2);
            }
        }
    } else {
        lemma_linked_is_seen(s);
    }
}

/// The text of a note keeps every character on the page: what is seen of its HTML,
/// with every emoji as the name in brackets that stands for it and without all other
/// tags, is the escaped text, whatever its source and the table of emoji.
pub proof fn law_note_text_is_seen_whole(s: Seq<char>, source: Seq<char>, emojis: JsonView)
    ensures
        is_closed(html::social_html(s, source, emojis)),
        visible(html::social_html(s, source, emojis)) == html::escaped(s),
        unescaped(visible(html::social_html(s, source, emojis))) == s,
{
    law_escaped_text_reads_the_same(s);
    lemma_weibo_is_seen(s, emojis);
    lemma_linked_is_seen(s);
}

/// A name in brackets that the table knows, with a picture from the host that serves
/// them, becomes that picture: it carries the address of the picture and the name in
/// its brackets. What stands before it is text with links, and what follows is read
/// in the same way.
pub proof fn law_known_names_become_pictures(
    before: Seq<char>,
    name: Seq<char>,
    after: Seq<char>,
    emojis: JsonView,
    url: Seq<char>,
) -> (image: Seq<char>)
    requires
        !before.contains('['),
        !name.contains(']'),
        emojis.get(name) == JsonView::Text(url),
        text::starts_with(url, "https://face.t.sinajs.cn/"@),
    ensures
        html::social_html(before + seq!['['] + name + seq![']'] + after, "微博"@, emojis)
            == html::linked(before) + image + html::social_html(after, "微博"@, emojis),
        text::starts_with(image, "<img "@),
        visible(image) == html::escaped(seq!['['] + name + seq![']']),
        attribute(image, "class"@) == Some("weibo-emoji"@),
        attribute(image, "src"@) == Some(html::escaped(url)),
        attribute(image, "alt"@) == Some(html::escaped(seq!['['] + name + seq![']'])),
        attribute(image, "title"@) == Some(html::escaped(seq!['['] + name + seq![']'])),
{
    let token = seq!['['] + name + seq![']'];
    let s = before + seq!['['] + name + seq![']'] + after;
    let i = before.len() as int;
    assert(s[i] == '[');
    assert forall|j: int| 0 <= j < i implies s[j] != '[' by {
        assert(s[j] == before[j]);
        assert(before.contains(before[j]));
    }
    text::lemma_index_of_at(s, '[', i);
    let rest = s.skip(i);
    assert(rest =~= token + after);
    let end: int = name.len() as int + 1;
    assert(rest[end] == ']');
    assert forall|j: int| 0 <= j < end implies rest[j] != ']' by {
        if j > 0 {
            assert(rest[j] == name[j - 1]);
            assert(name.contains(name[j - 1]));
        }
    }
    text::lemma_index_of_at(rest, ']', end);
    assert(rest.subrange(1, end) =~= name);
    assert(rest.take(end + 1) =~= token);
    assert(rest.skip(end + 1) =~= after);
    assert(s.take(i) =~= before);
    lemma_emoji_attributes(token, url);
    lemma_emoji_is_seen(token, url);
    html::emoji_html(token, url)
}

/// A bracket that opens no name of the table stays as it is, and what follows it is
/// read in the same way. Names end at the first closing bracket, and their pictures
/// come from the host that serves them or not at all.
pub proof fn law_other_brackets_stay(before: Seq<char>, after: Seq<char>, emojis: JsonView)
    requires
        !before.contains('['),
        forall|name: Seq<char>, rest: Seq<char>|
            !name.contains(']') && after == #[trigger] (name + seq![']'] + rest) ==> !(
            emojis.get(name) is Text) || !text::starts_with(
                emojis.get(name)->Text_0,
                "https://face.t.sinajs.cn/"@,
            ),
    ensures
        html::social_html(before + seq!['['] + after, "微博"@, emojis) == html::linked(before)
            + seq!['['] + html::social_html(after, "微博"@, emojis),
        html::social_html(before, "微博"@, emojis) == html::linked(before),
{
    let s = before + seq!['['] + after;
    let i = before.len() as int;
    assert(s[i] == '[');
    assert forall|j: int| 0 <= j < i implies s[j] != '[' by {
        assert(s[j] == before[j]);
        assert(before.contains(before[j]));
    }
    text::lemma_index_of_at(s, '[', i);
    assert forall|j: int| 0 <= j < before.len() implies before[j] != '[' by {
        assert(before.contains(before[j]));
    }
    text::lemma_index_of_at(before, '[', i);
    let rest = s.skip(i);
    text::lemma_index_of(rest, ']');
    if let Some(name) = html::bracketed(rest) {
        let end = text::index_of(rest, ']');
        let tail = rest.skip(end + 1);
        assert(after =~= name + seq![']'] + tail);
        assert forall|j: int| 0 <= j < name.len() implies name[j] != ']' by {
            assert(name[j] == rest[j + 1]);
        }
        assert(html::emoji_url(emojis, name) is None);
    }
    assert(s.take(i) =~= before);
    assert(rest.skip(1) =~= after);
    reveal_strlit("[");
    assert("["@ =~= seq!['[']);
}

/// Escaping goes character by character: five characters have an entity, and any other
/// stands for itself.
pub proof fn law_escaping_goes_character_by_character(a: Seq<char>, b: Seq<char>, c: char)
    ensures
        html::escaped(a + b) == html::escaped(a) + html::escaped(b),
        html::escaped(Seq::empty()) == Seq::<char>::empty(),
        html::escaped(seq!['&']) == "&amp;"@,
        html::escaped(seq!['<']) == "&lt;"@,
        html::escaped(seq!['>']) == "&gt;"@,
        html::escaped(seq!['"']) == "&quot;"@,
        html::escaped(seq!['\'']) == "&#39;"@,
        c != '&' && c != '<' && c != '>' && c != '"' && c != '\'' ==> html::escaped(seq![c])
            == seq![c],
{
    links::lemma_escaped_concat(a, b);
    lemma_escaped_one('&');
    lemma_escaped_one('<');
    lemma_escaped_one('>');
    lemma_escaped_one('"');
    lemma_escaped_one('\'');
    lemma_escaped_one(c);
}

proof fn lemma_escaped_one(c: char)
    ensures
        html::escaped(seq![c]) == html::entity(c),
{
    assert(seq![c].drop_last() =~= Seq::<char>::empty());
    assert(html::escaped(seq![c].drop_last()) == Seq::<char>::empty());
    assert(Seq::<char>::empty() + html::entity(c) =~= html::entity(c));
}

} // verus!
