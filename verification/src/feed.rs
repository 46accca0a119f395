//! What a snapshot of the feed holds, and what its pages and searches show.
use vstd::prelude::*;
use vstd::utf8;

use crate::cache;
use crate::cache::{CacheView, LLM_GUIDE};
use crate::contents;
use crate::json;
use crate::json::JsonView;
use crate::note;
use crate::number;
use crate::query;
use crate::query::QueryView;
use crate::text;
use crate::trusted;

verus! {

/// A page of a list is a window on it: it shows what stands from its offset on, as
/// far as its limit and the list go, and names the place behind it as the next one
/// where something is left.
pub proof fn law_pages_are_windows<T>(items: Seq<T>, offset: nat, limit: nat)
    ensures
        ({
            let page = cache::shown(items, offset, limit);
            let next = cache::page_bounds(items.len(), offset, limit).2;
            &&& offset >= items.len() ==> page.len() == 0 && next is None
            &&& offset < items.len() && offset + limit < items.len() ==> page.len() == limit && next
                == Some((offset + limit) as int)
            &&& offset < items.len() && offset + limit >= items.len() ==> page.len() == items.len()
                - offset && next is None
            &&& forall|i: int| 0 <= i < page.len() ==> #[trigger] page[i] == items[offset + i]
        }),
{
}

/// The notes that a snapshot is made of are those of the feed, and no others.
pub proof fn law_sorting_keeps_the_notes(items: Seq<JsonView>, item: JsonView)
    ensures
        cache::newest_first(items).contains(item) <==> items.contains(item),
        cache::newest_first(items).len() == items.len(),
{
    let sorted = cache::newest_first(items);
    cache::law_notes_are_sorted_and_kept(items);
    let time = cache::published(item);
    assert(cache::of_time(sorted, time) == cache::of_time(items, time));
    lemma_of_time(sorted, item);
    lemma_of_time(items, item);
}

proof fn lemma_of_time(items: Seq<JsonView>, item: JsonView)
    ensures
        cache::of_time(items, cache::published(item)).contains(item) <==> items.contains(item),
    decreases items.len(),
{
    let time = cache::published(item);
    let all = cache::of_time(items, time);
    if items.len() > 0 {
        let front = items.drop_last();
        lemma_of_time(front, item);
        let before = cache::of_time(front, time);
        if items.contains(item) {
            let i = choose|i: int| 0 <= i < items.len() && items[i] == item;
            if i < front.len() {
                assert(front[i] == item);
                let k = choose|k: int| 0 <= k < before.len() && before[k] == item;
                assert(all[k] == item);
            } else {
                assert(all[all.len() - 1] == item);
            }
        }
        if all.contains(item) {
            let k = choose|k: int| 0 <= k < all.len() && all[k] == item;
            if k < before.len() {
                assert(before[k] == item);
                let i = choose|i: int| 0 <= i < front.len() && front[i] == item;
                assert(items[i] == item);
            } else {
                assert(items[items.len() - 1] == item);
            }
        }
    }
}

/// Every note of a feed that makes a snapshot is in it, in all forms and at the same
/// place of each: as HTML, as Markdown with its text unchanged, and for a search with
/// its title and its text. There are as many places as notes.
pub proof fn law_snapshots_hold_every_note(
    data: JsonView,
    template: Seq<char>,
    emojis: JsonView,
    i: int,
) -> (k: int)
    requires
        cache::built(data, template, emojis) is Ok,
        0 <= i < data.get("items"@).elements().len(),
    ensures
        ({
            let snapshot = cache::built(data, template, emojis)->Ok_0;
            let items = data.get("items"@).elements();
            let item = items[i];
            &&& snapshot.sections.len() == items.len()
            &&& snapshot.item_html.len() == items.len()
            &&& snapshot.searchable.len() == items.len()
            &&& 0 <= k < items.len()
            &&& note::note_date(item) is Some
            &&& snapshot.item_html[k] == note::item_html(item, emojis, note::note_date(item)->0)
            &&& snapshot.sections[k] == note::item_md(item, note::note_date(item)->0)
            &&& text::contains(snapshot.sections[k], item.text("text"@))
            &&& text::contains(snapshot.searchable[k], item.text("title"@))
            &&& text::contains(snapshot.searchable[k], item.text("text"@))
        }),
{
    let items = data.get("items"@).elements();
    let item = items[i];
    let notes = cache::newest_first(items);
    law_sorting_keeps_the_notes(items, item);
    assert(notes.contains(item));
    let k = choose|k: int| 0 <= k < notes.len() && notes[k] == item;
    assert(note::note_date(notes[k]) is Some);
    contents::law_search_looks_at_the_whole_note(item);
    let _heading = contents::law_markdown_holds_the_text(item, note::note_date(item)->0);
    k
}

/// The notes of a snapshot are in order: no note comes before one that is newer.
pub proof fn law_snapshots_are_newest_first(
    data: JsonView,
    template: Seq<char>,
    emojis: JsonView,
) -> (notes: Seq<JsonView>)
    requires
        cache::built(data, template, emojis) is Ok,
    ensures
        ({
            let snapshot = cache::built(data, template, emojis)->Ok_0;
            let items = data.get("items"@).elements();
            &&& notes.len() == items.len()
            &&& snapshot.sections.len() == notes.len()
            &&& forall|a: int, b: int|
                0 <= a < b < notes.len() ==> !text::less(
                    (#[trigger] notes[a]).text("publishedAt"@),
                    (#[trigger] notes[b]).text("publishedAt"@),
                )
            &&& forall|k: int|
                0 <= k < notes.len() ==> items.contains(#[trigger] notes[k])
                    && snapshot.sections[k] == note::item_md(
                    notes[k],
                    note::note_date(notes[k])->0,
                ) && snapshot.item_html[k] == note::item_html(
                    notes[k],
                    emojis,
                    note::note_date(notes[k])->0,
                ) && snapshot.searchable[k] == cache::searchable_text(notes[k])
            &&& snapshot.markdown == cache::markdown_page(snapshot.sections, 0, 20)
            &&& snapshot.pages == cache::feed_pages(snapshot.snapshot, snapshot.item_html)
            &&& snapshot.html == cache::home_html(template, snapshot.snapshot, snapshot.item_html)
            &&& snapshot.snapshot == cache::digest_id(
                trusted::sha256(utf8::encode_utf8(data.get("items"@).encoded())),
            )
        }),
{
    let items = data.get("items"@).elements();
    let notes = cache::newest_first(items);
    cache::law_notes_are_sorted_and_kept(items);
    assert forall|k: int| 0 <= k < notes.len() implies items.contains(#[trigger] notes[k]) by {
        law_sorting_keeps_the_notes(items, notes[k]);
        assert(notes.contains(notes[k]));
    }
    assert forall|a: int, b: int| 0 <= a < b < notes.len() implies !text::less(
        (#[trigger] notes[a]).text("publishedAt"@),
        (#[trigger] notes[b]).text("publishedAt"@),
    ) by {
        assert(!text::less(cache::published(notes[a]), cache::published(notes[b])));
    }
    assert(data.get("items"@) is List);
    assert(JsonView::List(items) == data.get("items"@));
    notes
}

/// A note of a feed that can be rendered: it has an id that is not empty and a text.
pub open spec fn is_note(item: JsonView) -> bool {
    &&& item.get("id"@) is Text
    &&& item.get("id"@)->Text_0.len() > 0
    &&& item.get("text"@) is Text
}

/// A feed makes a snapshot exactly where the template has all three marks, the feed is
/// a list of notes with ids of their own, its total is their number, and each note has
/// a date. Otherwise the first of these that is missing is named.
pub proof fn law_feeds_are_checked(data: JsonView, template: Seq<char>, emojis: JsonView)
    ensures
        ({
            let built = cache::built(data, template, emojis);
            let items = data.get("items"@).elements();
            let marked = text::contains(template, "__FEED_ITEMS__"@) && text::contains(
                template,
                "__FEED_PAGES__"@,
            ) && text::contains(template, "__FEED_SNAPSHOT__"@);
            let listed = data.get("items"@) is List;
            let counted = data.get("total"@).as_number() == Some(items.len());
            let valid = (forall|i: int| 0 <= i < items.len() ==> is_note(#[trigger] items[i])) && (
            forall|i: int, j: int|
                0 <= i < j < items.len() ==> (#[trigger] items[i]).text("id"@) != (
                #[trigger] items[j]).text("id"@));
            let dated = forall|i: int|
                0 <= i < items.len() ==> trusted::zoned_date(
                    (#[trigger] items[i]).text("publishedAt"@),
                    28800,
                    "%Y-%m-%d"@,
                ) is Some;
            &&& built is Ok <==> marked && listed && counted && valid && dated
            &&& !text::contains(template, "__FEED_ITEMS__"@) ==> built == Err::<
                CacheView,
                Seq<char>,
            >("Missing template marker "@ + "__FEED_ITEMS__"@)
            &&& text::contains(template, "__FEED_ITEMS__"@) && !text::contains(
                template,
                "__FEED_PAGES__"@,
            ) ==> built == Err::<CacheView, Seq<char>>(
                "Missing template marker "@ + "__FEED_PAGES__"@,
            )
            &&& text::contains(template, "__FEED_ITEMS__"@) && text::contains(
                template,
                "__FEED_PAGES__"@,
            ) && !text::contains(template, "__FEED_SNAPSHOT__"@) ==> built == Err::<
                CacheView,
                Seq<char>,
            >("Missing template marker "@ + "__FEED_SNAPSHOT__"@)
            &&& marked && !listed ==> built == Err::<CacheView, Seq<char>>("Invalid items"@)
            &&& marked && listed && !counted ==> built == Err::<CacheView, Seq<char>>(
                "Invalid total"@,
            )
            &&& marked && listed && counted && !valid ==> built == Err::<CacheView, Seq<char>>(
                "Invalid item"@,
            )
            &&& marked && listed && counted && valid && !dated ==> built == Err::<
                CacheView,
                Seq<char>,
            >("Invalid publication date"@)
        }),
{
    let items = data.get("items"@).elements();
    let notes = cache::newest_first(items);
    assert forall|i: int| 0 <= i < items.len() implies (is_note(#[trigger] items[i])
        <==> cache::valid_item(items[i])) by {}
    if cache::all_dated(notes) {
        assert forall|i: int| 0 <= i < items.len() implies trusted::zoned_date(
            (#[trigger] items[i]).text("publishedAt"@),
            28800,
            "%Y-%m-%d"@,
        ) is Some by {
            law_sorting_keeps_the_notes(items, items[i]);
            assert(items.contains(items[i]));
            let k = choose|k: int| 0 <= k < notes.len() && notes[k] == items[i];
            assert(note::note_date(notes[k]) is Some);
        }
    } else {
        let k = choose|k: int| 0 <= k < notes.len() && note::note_date(#[trigger] notes[k]) is None;
        law_sorting_keeps_the_notes(items, notes[k]);
        assert(notes.contains(notes[k]));
        let i = choose|i: int| 0 <= i < items.len() && items[i] == notes[k];
        assert(items[i].text("publishedAt"@) == notes[k].text("publishedAt"@));
    }
}

/// The number that a lower case hexadecimal digit stands for.
pub open spec fn hex_digit_value(c: char) -> int {
    if '0' <= c <= '9' {
        c as int - 48
    } else {
        c as int - 87
    }
}

/// A snapshot is named by the first eight bytes of the digest of its notes, two
/// hexadecimal digits for each, the higher one first.
pub proof fn law_snapshots_are_named_by_their_digest(digest: Seq<u8>, k: int)
    requires
        digest.len() >= 8,
        0 <= k < 8,
    ensures
        cache::digest_id(digest).len() == 16,
        note::is_hex(cache::digest_id(digest)[2 * k]),
        note::is_hex(cache::digest_id(digest)[2 * k + 1]),
        16 * hex_digit_value(cache::digest_id(digest)[2 * k]) + hex_digit_value(
            cache::digest_id(digest)[2 * k + 1],
        ) == digest[k],
{
    lemma_hex_at(digest, k);
}

proof fn lemma_hex_at(bytes: Seq<u8>, k: int)
    requires
        0 <= k < bytes.len(),
    ensures
        cache::hex(bytes).len() == 2 * bytes.len(),
        note::is_hex(cache::hex(bytes)[2 * k]),
        note::is_hex(cache::hex(bytes)[2 * k + 1]),
        16 * hex_digit_value(cache::hex(bytes)[2 * k]) + hex_digit_value(
            cache::hex(bytes)[2 * k + 1],
        ) == bytes[k],
    decreases bytes.len(),
{
    let front = bytes.drop_last();
    if k < front.len() {
        lemma_hex_at(front, k);
        assert(front[k] == bytes[k]);
    } else {
        lemma_hex_len(front);
        let b = bytes.last() as int;
        assert(0 <= b / 16 < 16 && 0 <= b % 16 < 16);
        assert(16 * (b / 16) + b % 16 == b);
    }
}

proof fn lemma_hex_len(bytes: Seq<u8>)
    ensures
        cache::hex(bytes).len() == 2 * bytes.len(),
    decreases bytes.len(),
{
    if bytes.len() > 0 {
        lemma_hex_len(bytes.drop_last());
    }
}

/// A page of the feed says which notes it shows, from where on, of how many and of
/// which snapshot, and nothing else.
pub proof fn law_feed_pages_say_what_they_show(
    snapshot: Seq<char>,
    items: Seq<Seq<char>>,
    k: int,
)
    requires
        0 <= k < cache::feed_pages(snapshot, items).len(),
    ensures
        ({
            let members = cache::page_members(
                snapshot,
                (20 * k) as nat,
                items.len(),
                text::concat(cache::shown(items, (20 * k) as nat, 20)),
            );
            let page = JsonView::Object(members);
            &&& cache::feed_pages(snapshot, items)[k] == page.encoded()
            &&& members.len() == 4
            &&& json::ordered(members)
            &&& page.get("html"@) == JsonView::Text(
                text::concat(cache::shown(items, (20 * k) as nat, 20)),
            )
            &&& page.get("offset"@) == JsonView::Number(number::decimal((20 * k) as nat))
            &&& page.get("snapshotId"@) == JsonView::Text(snapshot)
            &&& page.get("total"@) == JsonView::Number(number::decimal(items.len()))
        }),
        20 * (cache::feed_pages(snapshot, items).len() - 1) < items.len() <= 20
            * cache::feed_pages(snapshot, items).len(),
{
    let offset = (20 * k) as nat;
    let shown = text::concat(cache::shown(items, offset, 20));
    let members = cache::page_members(snapshot, offset, items.len(), shown);
    let none = Seq::<Seq<char>>::empty();
    cache::law_written_json_is_well_formed(
        snapshot,
        offset,
        items.len(),
        shown,
        CacheView {
            snapshot,
            html: shown,
            pages: none,
            sections: none,
            item_html: none,
            searchable: none,
            markdown: shown,
        },
        QueryView { q: shown, regex: false, offset, limit: 20, snapshot: None },
        Seq::empty(),
    );
    json::law_members_are_found_by_their_keys(members, 0);
    json::law_members_are_found_by_their_keys(members, 1);
    json::law_members_are_found_by_their_keys(members, 2);
    json::law_members_are_found_by_their_keys(members, 3);
}

/// A page of a search says which notes it shows, what was looked for and how, of how
/// many matches and of which snapshot, and where the next page begins, and nothing
/// else.
pub proof fn law_search_pages_say_what_they_show(
    cache: CacheView,
    query: QueryView,
    matches: Seq<int>,
)
    ensures
        ({
            let members = cache::search_members(cache, query, matches);
            let page = JsonView::Object(members);
            let window = cache::shown(matches, query.offset, query.limit);
            &&& cache::search_page(cache, query, matches, false) == page.encoded()
            &&& members.len() == 8
            &&& json::ordered(members)
            &&& page.get("html"@) == JsonView::Text(
                text::concat(window.map_values(|i: int| cache.item_html[i])),
            )
            &&& page.get("limit"@) == JsonView::Number(number::decimal(query.limit))
            &&& page.get("nextOffset"@) == if query.offset < matches.len() && query.offset
                + query.limit < matches.len() {
                JsonView::Number(number::decimal(query.offset + query.limit))
            } else {
                JsonView::Null
            }
            &&& page.get("offset"@) == JsonView::Number(number::decimal(query.offset))
            &&& page.get("query"@) == JsonView::Text(query.q)
            &&& page.get("regex"@) == JsonView::Bool(query.regex)
            &&& page.get("snapshotId"@) == JsonView::Text(cache.snapshot)
            &&& page.get("total"@) == JsonView::Number(number::decimal(matches.len()))
        }),
{
    let members = cache::search_members(cache, query, matches);
    cache::law_written_json_is_well_formed(
        cache.snapshot,
        0,
        0,
        cache.snapshot,
        cache,
        query,
        matches,
    );
    json::law_members_are_found_by_their_keys(members, 0);
    json::law_members_are_found_by_their_keys(members, 1);
    json::law_members_are_found_by_their_keys(members, 2);
    json::law_members_are_found_by_their_keys(members, 3);
    json::law_members_are_found_by_their_keys(members, 4);
    json::law_members_are_found_by_their_keys(members, 5);
    json::law_members_are_found_by_their_keys(members, 6);
    json::law_members_are_found_by_their_keys(members, 7);
}

/// A page of the notes as Markdown opens with the title and how to use it, shows the
/// notes of its window, and ends with a link to the next page or with the line that
/// says that there is none.
pub proof fn law_markdown_pages_show_their_window(
    sections: Seq<Seq<char>>,
    offset: nat,
    limit: nat,
)
    ensures
        cache::markdown_page(sections, offset, limit) == "# Zexi's Notes\n\n"@ + LLM_GUIDE@
            + text::concat(cache::shown(sections, offset, limit)) + if offset < sections.len()
            && offset + limit < sections.len() {
            "[下一页](https://zexi.me/llms.txt?"@ + ("offset="@ + number::decimal(offset + limit)
                + "&limit="@ + number::decimal(limit)) + ")\n"@
        } else {
            "已到最后一页。\n"@
        },
{
    query::law_page_links_read_as_their_numbers(offset + limit, limit);
}

/// A page of a search as Markdown says how many notes were found, shows those of its
/// window, and ends with a link to the next page of the same search or with the line
/// that says that there is none or that nothing was found.
pub proof fn law_markdown_searches_show_their_window(
    cache: CacheView,
    query: QueryView,
    matches: Seq<int>,
)
    ensures
        cache::search_page(cache, query, matches, true) == "# Zexi's Notes 搜索\n\n"@ + LLM_GUIDE@
            + "共找到 "@ + number::decimal(matches.len()) + " 条笔记。\n\n"@ + text::concat(
            cache::shown(matches, query.offset, query.limit).map_values(
                |i: int| cache.sections[i],
            ),
        ) + if query.offset < matches.len() && query.offset + query.limit < matches.len() {
            "[下一页](https://zexi.me/llms.txt?"@ + query::form_encoded(
                query.pairs(query.offset + query.limit, cache.snapshot),
            ) + ")\n"@
        } else if matches.len() == 0 {
            "没有找到匹配的笔记。\n"@
        } else {
            "已到最后一页。\n"@
        },
{
}

/// A text in a row of texts stands between those before it and those behind it.
pub proof fn law_rows_hold_their_texts(parts: Seq<Seq<char>>, k: int)
    requires
        0 <= k < parts.len(),
    ensures
        text::concat(parts) == text::concat(parts.take(k)) + parts[k] + text::concat(
            parts.skip(k + 1),
        ),
        text::contains(text::concat(parts), parts[k]),
    decreases parts.len(),
{
    let front = parts.drop_last();
    let last = parts.last();
    if k == parts.len() - 1 {
        assert(parts.take(k) =~= front);
        assert(parts.skip(k + 1) =~= Seq::<Seq<char>>::empty());
        assert(text::concat(front) + last + Seq::<char>::empty() =~= text::concat(parts));
    } else {
        law_rows_hold_their_texts(front, k);
        assert(front.take(k) =~= parts.take(k));
        assert(parts.skip(k + 1).drop_last() =~= front.skip(k + 1));
        let a = text::concat(parts.take(k));
        let b = text::concat(front.skip(k + 1));
        assert(a + parts[k] + b + last =~= a + parts[k] + (b + last));
    }
    text::lemma_contains_between(
        text::concat(parts.take(k)),
        parts[k],
        text::concat(parts.skip(k + 1)),
    );
}

/// A part of a template: text that stands as it is, or the mark of what is put there.
pub enum TemplatePart {
    Plain(Seq<char>),
    Items,
    Pages,
    Snapshot,
}

impl TemplatePart {
    /// What the part reads.
    pub open spec fn source(self) -> Seq<char> {
        match self {
            TemplatePart::Plain(s) => s,
            TemplatePart::Items => "__FEED_ITEMS__"@,
            TemplatePart::Pages => "__FEED_PAGES__"@,
            TemplatePart::Snapshot => "__FEED_SNAPSHOT__"@,
        }
    }

    /// What stands there in the page.
    pub open spec fn filled(
        self,
        items: Seq<char>,
        pages: Seq<char>,
        snapshot: Seq<char>,
    ) -> Seq<char> {
        match self {
            TemplatePart::Plain(s) => s,
            TemplatePart::Items => items,
            TemplatePart::Pages => pages,
            TemplatePart::Snapshot => snapshot,
        }
    }
}

/// A text that is no part of a mark: underscores stand alone inside it, and none
/// behind a `D`.
pub open spec fn is_free_text(s: Seq<char>) -> bool {
    forall|i: int|
        0 <= i < s.len() && #[trigger] s[i] == '_' ==> 0 < i < s.len() - 1 && s[i + 1] != '_' && s[i
            - 1] != 'D'
}

/// One of the marks of a template.
spec fn is_template_mark(s: Seq<char>) -> bool {
    s == "__FEED_ITEMS__"@ || s == "__FEED_PAGES__"@ || s == "__FEED_SNAPSHOT__"@
}

/// A text that is no part of a mark, or one of the marks.
spec fn is_template_text(s: Seq<char>) -> bool {
    is_template_mark(s) || is_free_text(s)
}

/// The first underscore of a text is not alone, or stands behind something else than a
/// `D`.
spec fn opens_with_mark(s: Seq<char>) -> bool {
    let i = text::index_of(s, '_');
    0 <= i < s.len() ==> (i + 1 < s.len() && s[i + 1] == '_') || (i > 0 && s[i - 1] != 'D')
}

/// How the marks read.
proof fn lemma_mark(s: Seq<char>)
    requires
        is_template_mark(s),
    ensures
        s.len() >= 14,
        s[0] == '_' && s[1] == '_' && s[2] == 'F' && s[3] == 'E' && s[4] == 'E' && s[5] == 'D'
            && s[6] == '_',
        forall|j: int| 7 <= j < s.len() - 2 ==> #[trigger] s[j] != '_',
        s[s.len() - 2] == '_' && s[s.len() - 1] == '_',
        s == "__FEED_ITEMS__"@ ==> s[7] == 'I',
        s == "__FEED_PAGES__"@ ==> s[7] == 'P',
        s == "__FEED_SNAPSHOT__"@ ==> s[7] == 'S',
{
    reveal_strlit("__FEED_ITEMS__");
    reveal_strlit("__FEED_PAGES__");
    reveal_strlit("__FEED_SNAPSHOT__");
}

/// A text in which nothing begins that is replaced stays as it is before more text.
proof fn lemma_replace_behind(t: Seq<char>, rest: Seq<char>, p: Seq<char>, r: Seq<char>)
    requires
        p.len() > 0,
        forall|j: int| 0 <= j < t.len() ==> !text::starts_with(#[trigger] (t + rest).skip(j), p),
    ensures
        text::replace(t + rest, p, r) == t + text::replace(rest, p, r),
    decreases t.len(),
{
    let all = t + rest;
    if t.len() == 0 {
        assert(all =~= rest);
        assert(t + text::replace(rest, p, r) =~= text::replace(rest, p, r));
    } else {
        assert(all.skip(0) =~= all);
        assert(!text::starts_with(all.skip(0), p));
        let tail = t.drop_first();
        assert(all.drop_first() =~= tail + rest);
        assert forall|j: int| 0 <= j < tail.len() implies !text::starts_with(
            #[trigger] (tail + rest).skip(j),
            p,
        ) by {
            assert((tail + rest).skip(j) =~= all.skip(j + 1));
        }
        lemma_replace_behind(tail, rest, p, r);
        assert(seq![t[0]] + (tail + text::replace(rest, p, r)) =~= t + text::replace(rest, p, r));
    }
}

/// A part of a template is replaced, where it is the mark that is looked for, and
/// stays otherwise, whatever follows.
proof fn lemma_replace_part(t: Seq<char>, rest: Seq<char>, p: Seq<char>, r: Seq<char>)
    requires
        is_template_text(t),
        is_template_mark(p),
        opens_with_mark(rest),
    ensures
        text::replace(t + rest, p, r) == (if t == p {
            r
        } else {
            t
        }) + text::replace(rest, p, r),
{
    let all = t + rest;
    lemma_mark(p);
    if t == p {
        assert(all.take(p.len() as int) =~= p);
        assert(all.skip(p.len() as int) =~= rest);
    } else {
        text::lemma_index_of(rest, '_');
        assert forall|j: int| 0 <= j < t.len() implies !text::starts_with(
            #[trigger] all.skip(j),
            p,
        ) by {
            let u = all.skip(j);
            if text::starts_with(u, p) {
                let front = u.take(p.len() as int);
                assert(front[0] == '_' && front[1] == '_' && front[2] == 'F' && front[3] == 'E'
                    && front[4] == 'E' && front[5] == 'D' && front[6] == '_' && front[7] == p[7]);
                assert(p[7] != '_');
                assert(u[0] == t[j]);
                if is_template_mark(t) {
                    lemma_mark(t);
                    let n = t.len() as int;
                    if j == 0 {
                        assert(u[7] == t[7]);
                    } else if j < n - 2 {
                        assert(u[1] == t[j + 1]);
                    } else if j == n - 2 {
                        assert(u[2] == rest[0] && u[3] == rest[1] && u[4] == rest[2] && u[5]
                            == rest[3] && u[6] == rest[4] && u[7] == rest[5]);
                        text::lemma_index_of_at(rest, '_', 4);
                    } else {
                        assert(u[1] == rest[0] && u[2] == rest[1]);
                        text::lemma_index_of_at(rest, '_', 0);
                    }
                } else {
                    assert(t[j] == '_');
                    assert(u[1] == t[j + 1]);
                }
            }
        }
        lemma_replace_behind(t, rest, p, r);
    }
}

/// Texts in a row are put together from the front as well as from the back.
proof fn lemma_concat_front(list: Seq<Seq<char>>)
    requires
        list.len() > 0,
    ensures
        text::concat(list) == list[0] + text::concat(list.drop_first()),
{
    law_rows_hold_their_texts(list, 0);
    assert(list.take(0) =~= Seq::<Seq<char>>::empty());
    assert(text::concat(list.take(0)) == Seq::<char>::empty());
    assert(list.skip(1) =~= list.drop_first());
    assert(Seq::<char>::empty() + list[0] =~= list[0]);
}

/// The first underscore of the parts of a template is that of a mark.
proof fn lemma_parts_open_with_mark(list: Seq<Seq<char>>)
    requires
        forall|i: int| 0 <= i < list.len() ==> is_template_text(#[trigger] list[i]),
    ensures
        opens_with_mark(text::concat(list)),
    decreases list.len(),
{
    let all = text::concat(list);
    if list.len() > 0 {
        let first = list[0];
        let rest = list.drop_first();
        assert forall|i: int| 0 <= i < rest.len() implies is_template_text(#[trigger] rest[i]) by {
            assert(rest[i] == list[i + 1]);
        }
        lemma_parts_open_with_mark(rest);
        lemma_concat_front(list);
        let tail = text::concat(rest);
        assert(is_template_text(list[0]));
        if is_template_mark(first) {
            lemma_mark(first);
            assert(all[0] == '_' && all[1] == '_');
            text::lemma_index_of_at(all, '_', 0);
        } else {
            text::lemma_index_of(first, '_');
            let k = text::index_of(first, '_');
            let n = first.len() as int;
            if k < n {
                assert(first[k] == '_');
                assert forall|j: int| 0 <= j < k implies all[j] != '_' by {
                    assert(all[j] == first[j]);
                }
                assert(all[k] == first[k] && all[k - 1] == first[k - 1]);
                text::lemma_index_of_at(all, '_', k);
            } else {
                text::lemma_index_of(tail, '_');
                let i = text::index_of(tail, '_');
                assert forall|j: int| 0 <= j < n + i implies all[j] != '_' by {
                    if j < n {
                        assert(all[j] == first[j]);
                    } else {
                        assert(all[j] == tail[j - n]);
                    }
                }
                text::lemma_index_of_at(all, '_', n + i);
            }
        }
    }
}

/// Replacing goes part by part.
proof fn lemma_replace_parts(list: Seq<Seq<char>>, p: Seq<char>, r: Seq<char>)
    requires
        is_template_mark(p),
        forall|i: int| 0 <= i < list.len() ==> is_template_text(#[trigger] list[i]),
    ensures
        text::replace(text::concat(list), p, r) == text::concat(
            list.map_values(
                |t: Seq<char>|
                    if t == p {
                        r
                    } else {
                        t
                    },
            ),
        ),
    decreases list.len(),
{
    let put = |t: Seq<char>|
        if t == p {
            r
        } else {
            t
        };
    let next = list.map_values(put);
    if list.len() > 0 {
        let rest = list.drop_first();
        assert forall|i: int| 0 <= i < rest.len() implies is_template_text(#[trigger] rest[i]) by {
            assert(rest[i] == list[i + 1]);
        }
        lemma_replace_parts(rest, p, r);
        lemma_parts_open_with_mark(rest);
        lemma_concat_front(list);
        lemma_concat_front(next);
        assert(next.drop_first() =~= rest.map_values(put));
        assert(is_template_text(list[0]));
        lemma_replace_part(list[0], text::concat(rest), p, r);
    } else {
        assert(next =~= list);
    }
}

/// The page with the newest notes is its template with everything in its place: the
/// number of pages, the name of the snapshot and the first twenty notes stand where
/// their marks were, however often and in whatever order, and the rest of the
/// template, none of which could be taken for a part of a mark, stands as it is. Where
/// there is no second page, the status says that the feed is complete.
pub proof fn law_templates_are_filled(
    parts: Seq<TemplatePart>,
    snapshot: Seq<char>,
    items: Seq<Seq<char>>,
)
    requires
        cache::is_snapshot_name(snapshot),
        forall|i: int|
            0 <= i < parts.len() ==> match #[trigger] parts[i] {
                TemplatePart::Plain(s) => is_free_text(s),
                _ => true,
            },
    ensures
        ({
            let template = text::concat(parts.map_values(|part: TemplatePart| part.source()));
            let newest = text::concat(cache::shown(items, 0, 20));
            let pages = number::decimal((items.len() + 19) / 20);
            let page = text::concat(
                parts.map_values(|part: TemplatePart| part.filled(newest, pages, snapshot)),
            );
            cache::home_html(template, snapshot, items) == if items.len() > 20 {
                page
            } else {
                text::replace(
                    page,
                    "id=\"feed-status\""@,
                    "data-complete=\"true\" id=\"feed-status\""@,
                )
            }
        }),
{
    let newest = text::concat(cache::shown(items, 0, 20));
    let pages = number::decimal((items.len() + 19) / 20);
    let l0 = parts.map_values(|part: TemplatePart| part.source());
    let p1 = "__FEED_PAGES__"@;
    let p2 = "__FEED_SNAPSHOT__"@;
    let p3 = "__FEED_ITEMS__"@;
    let f1 = |t: Seq<char>|
        if t == p1 {
            pages
        } else {
            t
        };
    let f2 = |t: Seq<char>|
        if t == p2 {
            snapshot
        } else {
            t
        };
    let f3 = |t: Seq<char>|
        if t == p3 {
            newest
        } else {
            t
        };
    let l1 = l0.map_values(f1);
    let l2 = l1.map_values(f2);
    let l3 = l2.map_values(f3);
    number::lemma_decimal_round_trip((items.len() + 19) / 20);
    lemma_mark(p1);
    lemma_mark(p2);
    lemma_mark(p3);
    assert forall|k: int| 0 <= k < pages.len() implies #[trigger] pages[k] != '_' by {
        assert('0' <= pages[k] <= '9');
    }
    assert forall|k: int| 0 <= k < snapshot.len() implies #[trigger] snapshot[k] != '_' by {
        assert(note::is_hex(snapshot[k]));
    }
    assert(pages.len() > 0 && snapshot.len() > 0);
    assert forall|i: int| 0 <= i < l0.len() implies is_template_text(#[trigger] l0[i]) by {
        assert(l0[i] == parts[i].source());
    }
    assert forall|i: int| 0 <= i < l1.len() implies is_template_text(#[trigger] l1[i]) by {
        assert(is_template_text(l0[i]));
    }
    assert forall|i: int| 0 <= i < l2.len() implies is_template_text(#[trigger] l2[i]) by {
        assert(is_template_text(l1[i]));
    }
    lemma_replace_parts(l0, p1, pages);
    lemma_replace_parts(l1, p2, snapshot);
    lemma_replace_parts(l2, p3, newest);
    let filled = parts.map_values(|part: TemplatePart| part.filled(newest, pages, snapshot));
    assert forall|i: int| 0 <= i < parts.len() implies #[trigger] l3[i] == filled[i] by {
        assert(l0[i] == parts[i].source());
        match parts[i] {
            TemplatePart::Plain(s) => {
                assert(!is_free_text(p1) && !is_free_text(p2) && !is_free_text(p3));
            },
            TemplatePart::Pages => {
                assert(pages[0] != '_');
            },
            TemplatePart::Snapshot => {
                assert(p1[7] != p2[7]);
                assert(snapshot[0] != '_');
            },
            TemplatePart::Items => {
                assert(p1[7] != p3[7] && p2[7] != p3[7]);
            },
        }
    }
    assert(l3 =~= filled);
}

/// A search finds a note for a keyword exactly where what it looks at of the note
/// holds the keyword, both in lower case, and for a regular expression exactly where
/// it matches there, in whatever case.
pub proof fn law_searches_look_at_every_note(texts: Seq<Seq<char>>, query: QueryView, i: int)
    requires
        0 <= i < texts.len(),
    ensures
        !query.regex ==> (cache::found(texts, query).contains(i) <==> text::contains(
            trusted::lowercase(texts[i]),
            trusted::lowercase(query.q),
        )),
        query.regex ==> (cache::found(texts, query).contains(i) <==> trusted::regex_match(
            query.q,
            true,
            1000000,
            1000000,
            texts[i],
        )),
{
    cache::law_search_finds_exactly_the_matches(texts, query);
    assert(cache::is_match(texts[i], query) <==> cache::found(texts, query).contains(i));
}

/// A feed can be built where it is refused, and where every note that has a date has
/// one that can be shown.
pub proof fn law_feeds_with_shown_dates_can_be_built(data: JsonView, template: Seq<char>)
    requires
        cache::refusal(data, template) is Some || forall|i: int|
            0 <= i < data.get("items"@).elements().len() ==> match note::note_date(
                #[trigger] data.get("items"@).elements()[i],
            ) {
                Some(date) => note::numeric_date(date),
                None => true,
            },
    ensures
        cache::buildable(data, template),
{
    let items = data.get("items"@).elements();
    let notes = cache::newest_first(items);
    if cache::refusal(data, template) is None {
        assert forall|i: int| 0 <= i < notes.len() implies note::showable(#[trigger] notes[i]) by {
            law_sorting_keeps_the_notes(items, notes[i]);
            assert(notes.contains(notes[i]));
            let k = choose|k: int| 0 <= k < items.len() && items[k] == notes[i];
            assert(items[k] == notes[i]);
        }
    }
}

/// The notes are rendered from the newest on, and only as far as the first one without
/// a date: a feed can be built where the dates of all notes before that one can be
/// shown, and cannot where one of them cannot.
pub proof fn law_feeds_are_rendered_up_to_the_first_undated_note(
    data: JsonView,
    template: Seq<char>,
    k: int,
)
    requires
        cache::refusal(data, template) is None,
        0 <= k <= data.get("items"@).elements().len(),
        forall|i: int|
            0 <= i < k ==> note::note_date(
                #[trigger] cache::newest_first(data.get("items"@).elements())[i],
            ) is Some,
    ensures
        ({
            let notes = cache::newest_first(data.get("items"@).elements());
            &&& (forall|i: int| 0 <= i < k ==> note::showable(#[trigger] notes[i])) && (k
                == notes.len() || note::note_date(notes[k]) is None) ==> cache::buildable(
                data,
                template,
            )
            &&& k < notes.len() && !note::showable(notes[k]) ==> !cache::buildable(data, template)
        }),
{
    let items = data.get("items"@).elements();
    let notes = cache::newest_first(items);
    cache::law_notes_are_sorted_and_kept(items);
    if (forall|i: int| 0 <= i < k ==> note::showable(#[trigger] notes[i])) && (k == notes.len()
        || note::note_date(notes[k]) is None) {
        assert forall|i: int| 0 <= i < notes.len() && cache::all_dated(notes.take(i)) implies
            note::showable(#[trigger] notes[i]) by {
            if i > k {
                assert(notes.take(i)[k] == notes[k]);
                assert(note::note_date(notes.take(i)[k]) is Some);
            }
        }
    }
    if k < notes.len() && !note::showable(notes[k]) {
        assert forall|i: int| 0 <= i < notes.take(k).len() implies note::note_date(
            #[trigger] notes.take(k)[i],
        ) is Some by {
            assert(notes.take(k)[i] == notes[i]);
        }
        assert(cache::all_dated(notes.take(k)));
    }
}

/// The lower case form of a keyword does not depend on what stands around it.
pub open spec fn lowers_by_itself(q: Seq<char>) -> bool {
    forall|a: Seq<char>, b: Seq<char>|
        text::contains(trusted::lowercase(#[trigger] (a + q + b)), trusted::lowercase(q))
}

/// A search for any part of the title or of the text of a note finds the note, in
/// every snapshot that holds it, where the lower case form of that part does not
/// depend on what stands around it.
pub proof fn law_parts_of_notes_are_found(
    data: JsonView,
    template: Seq<char>,
    emojis: JsonView,
    i: int,
    query: QueryView,
    front: Seq<char>,
    rest: Seq<char>,
) -> (k: int)
    requires
        cache::built(data, template, emojis) is Ok,
        0 <= i < data.get("items"@).elements().len(),
        !query.regex,
        lowers_by_itself(query.q),
        data.get("items"@).elements()[i].text("text"@) == front + query.q + rest
            || data.get("items"@).elements()[i].text("title"@) == front + query.q + rest,
    ensures
        ({
            let snapshot = cache::built(data, template, emojis)->Ok_0;
            let item = data.get("items"@).elements()[i];
            &&& cache::found(snapshot.searchable, query).contains(k)
            &&& 0 <= k < snapshot.sections.len()
            &&& snapshot.sections[k] == note::item_md(item, note::note_date(item)->0)
            &&& snapshot.item_html[k] == note::item_html(item, emojis, note::note_date(item)->0)
        }),
{
    let searchable = cache::built(data, template, emojis)->Ok_0.searchable;
    let k = law_snapshots_hold_every_note(data, template, emojis, i);
    lemma_part_is_found(searchable[k], query.q, front, rest);
    law_searches_look_at_every_note(searchable, query, k);
    k
}

/// What holds a text that holds a keyword holds the keyword, in lower case too.
proof fn lemma_part_is_found(all: Seq<char>, q: Seq<char>, front: Seq<char>, rest: Seq<char>)
    requires
        lowers_by_itself(q),
        text::contains(all, front + q + rest),
    ensures
        text::contains(trusted::lowercase(all), trusted::lowercase(q)),
{
    let part = front + q + rest;
    let (a, b) = text::law_texts_are_found(Seq::empty(), part, Seq::empty(), all);
    assert(all == a + part + b);
    assert(all =~= (a + front) + q + (rest + b));
}

} // verus!
