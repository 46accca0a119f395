//! A snapshot of the feed, rendered for the page, for readers of Markdown and
//! for search.
use vstd::prelude::*;
use vstd::slice::slice_subrange;
use vstd::string::*;
use vstd::utf8;

use crate::html;
use crate::json;
use crate::json::{Json, JsonView, MemberView};
use crate::note;
use crate::note::{is_showable, nested_md, render_item};
use crate::number;
use crate::number::decimal_text;
use crate::query;
use crate::query::{page_params, QueryView, SearchQuery};
use crate::text;
use crate::text::{
    comes_before, concat_texts, has_text, replaced, to_chars, to_text,
};
use crate::trusted;
use crate::trusted::{regex_matches, sha256_digest, to_lowercase, RegexRefusal};

verus! {

/// How readers search the notes and turn their pages.
pub const LLM_GUIDE: &'static str =
    "```bash\n# 搜索\ncurl -G 'https://zexi.me/llms.txt' --data-urlencode 'q=AI|Agent' -d 'regex=1' -d 'limit=20'\n\n# 翻页\ncurl 'https://zexi.me/llms.txt?offset=20&limit=20'\n```\n\n";

/// The time of publication of a note as it is written.
pub open spec fn published(item: JsonView) -> Seq<char> {
    item.text("publishedAt"@)
}

/// Notes in order with one more in its place: behind all that are not older.
pub open spec fn insert_note(sorted: Seq<JsonView>, item: JsonView) -> Seq<JsonView>
    decreases sorted.len(),
{
    if sorted.len() > 0 && text::less(published(sorted.last()), published(item)) {
        insert_note(sorted.drop_last(), item).push(sorted.last())
    } else {
        sorted.push(item)
    }
}

/// Notes from the newest to the oldest. Notes of the same time stay in the order
/// in which they came.
pub open spec fn newest_first(items: Seq<JsonView>) -> Seq<JsonView>
    decreases items.len(),
{
    if items.len() == 0 {
        Seq::empty()
    } else {
        insert_note(newest_first(items.drop_last()), items.last())
    }
}

/// What a list of references to JSON values holds.
pub open spec fn ref_views(v: Seq<&Json>) -> Seq<JsonView> {
    v.map_values(|j: &Json| j@)
}

/// A note goes where everything behind it is older and what is before it is not.
proof fn lemma_insert_note(sorted: Seq<JsonView>, item: JsonView, k: int)
    requires
        0 <= k <= sorted.len(),
        forall|i: int|
            k <= i < sorted.len() ==> text::less(published(#[trigger] sorted[i]), published(item)),
        k > 0 ==> !text::less(published(sorted[k - 1]), published(item)),
    ensures
        insert_note(sorted, item) == sorted.insert(k, item),
    decreases sorted.len(),
{
    if k == sorted.len() {
        assert(sorted.insert(k, item) == sorted.push(item));
    } else {
        lemma_insert_note(sorted.drop_last(), item, k);
        assert(sorted.drop_last().insert(k, item).push(sorted.last()) == sorted.insert(k, item));
    }
}

/// Notes from the newest to the oldest.
pub fn sort_notes(items: &Vec<Json>) -> (r: Vec<&Json>)
    ensures
        ref_views(r@) == newest_first(json::json_views(items@)),
{
    let mut out: Vec<&Json> = Vec::new();
    let ghost all = json::json_views(items@);
    assert(all.take(0) == Seq::<JsonView>::empty());
    assert(ref_views(out@) == Seq::<JsonView>::empty());
    for i in 0..items.len()
        invariant
            all == json::json_views(items@),
            ref_views(out@) == newest_first(all.take(i as int)),
    {
        let item = &items[i];
        let time = to_chars(item.text("publishedAt"));
        let ghost sorted = ref_views(out@);
        let mut k: usize = out.len();
        while k > 0 && comes_before(
            to_chars(out[k - 1].text("publishedAt")).as_slice(),
            time.as_slice(),
        )
            invariant
                k <= out@.len(),
                sorted == ref_views(out@),
                time@ == published(item@),
                forall|j: int|
                    k <= j < sorted.len() ==> text::less(
                        published(#[trigger] sorted[j]),
                        published(item@),
                    ),
            decreases k,
        {
            assert(sorted[k - 1] == out@[k - 1]@);
            k -= 1;
        }
        proof {
            if k > 0 {
                assert(sorted[k - 1] == out@[k - 1]@);
            }
            lemma_insert_note(sorted, item@, k as int);
            assert(all.take(i + 1).drop_last() == all.take(i as int));
            assert(all.take(i + 1).last() == item@);
        }
        out.insert(k, item);
        assert(ref_views(out@) == sorted.insert(k as int, item@));
    }
    assert(all.take(all.len() as int) == all);
    out
}

/// The notes of a given time, in order.
pub open spec fn of_time(items: Seq<JsonView>, time: Seq<char>) -> Seq<JsonView>
    decreases items.len(),
{
    if items.len() == 0 {
        Seq::empty()
    } else if published(items.last()) == time {
        of_time(items.drop_last(), time).push(items.last())
    } else {
        of_time(items.drop_last(), time)
    }
}

/// No note comes before one that is newer.
pub open spec fn is_newest_first(items: Seq<JsonView>) -> bool {
    forall|i: int, j: int|
        0 <= i < j < items.len() ==> !text::less(
            published(#[trigger] items[i]),
            published(#[trigger] items[j]),
        )
}

proof fn lemma_insert_keeps_order(sorted: Seq<JsonView>, item: JsonView)
    requires
        is_newest_first(sorted),
    ensures
        is_newest_first(insert_note(sorted, item)),
        insert_note(sorted, item).len() == sorted.len() + 1,
        forall|i: int|
            0 <= i < insert_note(sorted, item).len() ==> #[trigger] insert_note(sorted, item)[i]
                == item || sorted.contains(insert_note(sorted, item)[i]),
    decreases sorted.len(),
{
    let r = insert_note(sorted, item);
    if sorted.len() > 0 && text::less(published(sorted.last()), published(item)) {
        let front = sorted.drop_last();
        lemma_insert_keeps_order(front, item);
        let inner = insert_note(front, item);
        text::lemma_less_total(published(item), published(sorted.last()));
        assert forall|i: int, j: int| 0 <= i < j < r.len() implies !text::less(
            published(#[trigger] r[i]),
            published(#[trigger] r[j]),
        ) by {
            if j < inner.len() {
                assert(r[i] == inner[i] && r[j] == inner[j]);
            } else if inner[i] != item {
                let k = choose|k: int| 0 <= k < front.len() && front[k] == inner[i];
                assert(sorted[k] == inner[i]);
            }
        }
        assert forall|i: int| 0 <= i < r.len() implies #[trigger] r[i] == item || sorted.contains(
            r[i],
        ) by {
            if i < inner.len() {
                if inner[i] != item {
                    let k = choose|k: int| 0 <= k < front.len() && front[k] == inner[i];
                    assert(sorted[k] == inner[i]);
                }
            } else {
                assert(sorted[sorted.len() - 1] == r[i]);
            }
        }
    } else {
        assert forall|i: int, j: int| 0 <= i < j < r.len() implies !text::less(
            published(#[trigger] r[i]),
            published(#[trigger] r[j]),
        ) by {
            if j == sorted.len() {
                if i < sorted.len() - 1 {
                    text::lemma_less_transitive(
                        published(r[j]),
                        published(sorted.last()),
                        published(r[i]),
                    );
                }
            }
        }
        assert forall|i: int| 0 <= i < r.len() implies #[trigger] r[i] == item || sorted.contains(
            r[i],
        ) by {
            if i < sorted.len() {
                assert(sorted[i] == r[i]);
            }
        }
    }
}

proof fn lemma_insert_keeps_times(sorted: Seq<JsonView>, item: JsonView, time: Seq<char>)
    requires
        is_newest_first(sorted),
    ensures
        of_time(insert_note(sorted, item), time) == if published(item) == time {
            of_time(sorted, time).push(item)
        } else {
            of_time(sorted, time)
        },
    decreases sorted.len(),
{
    if sorted.len() > 0 && text::less(published(sorted.last()), published(item)) {
        let front = sorted.drop_last();
        lemma_insert_keeps_times(front, item, time);
        let inner = insert_note(front, item);
        assert(inner.push(sorted.last()).drop_last() == inner);
        if published(item) == time {
            text::lemma_less_irreflexive(time);
        }
    } else {
        assert(sorted.push(item).drop_last() == sorted);
    }
}

/// The notes of a snapshot are the notes of the feed from the newest to the
/// oldest: none is lost, none is added, and those of the same time keep their
/// order.
pub proof fn law_notes_are_sorted_and_kept(items: Seq<JsonView>)
    ensures
        is_newest_first(newest_first(items)),
        newest_first(items).len() == items.len(),
        forall|time: Seq<char>| #[trigger]
            of_time(newest_first(items), time) == of_time(items, time),
    decreases items.len(),
{
    if items.len() > 0 {
        let front = items.drop_last();
        law_notes_are_sorted_and_kept(front);
        lemma_insert_keeps_order(newest_first(front), items.last());
        assert forall|time: Seq<char>| #[trigger]
            of_time(newest_first(items), time) == of_time(items, time) by {
            lemma_insert_keeps_times(newest_first(front), items.last(), time);
        }
    }
}

/// A snapshot of the feed in all its forms.
pub struct Cache {
    /// What names the snapshot.
    pub snapshot: String,
    /// The page with the newest notes.
    pub html: String,
    /// The pages of the feed, twenty notes each, as JSON.
    pub pages: Vec<String>,
    /// Every note as Markdown.
    pub sections: Vec<String>,
    /// Every note as HTML.
    pub item_html: Vec<String>,
    /// What a search looks at of every note.
    pub searchable: Vec<String>,
    /// The newest notes as Markdown.
    pub markdown: String,
}

/// A snapshot as a mathematical value.
#[verifier::ext_equal]
pub struct CacheView {
    pub snapshot: Seq<char>,
    pub html: Seq<char>,
    pub pages: Seq<Seq<char>>,
    pub sections: Seq<Seq<char>>,
    pub item_html: Seq<Seq<char>>,
    pub searchable: Seq<Seq<char>>,
    pub markdown: Seq<char>,
}

impl View for Cache {
    type V = CacheView;

    open spec fn view(&self) -> CacheView {
        CacheView {
            snapshot: self.snapshot@,
            html: self.html@,
            pages: text::views(self.pages@),
            sections: text::views(self.sections@),
            item_html: text::views(self.item_html@),
            searchable: text::views(self.searchable@),
            markdown: self.markdown@,
        }
    }
}

impl CacheView {
    /// The snapshot has a name, its forms hold the same notes, and its pages are
    /// made of them.
    pub open spec fn well_formed(self) -> bool {
        &&& is_snapshot_name(self.snapshot)
        &&& self.item_html.len() == self.sections.len()
        &&& self.searchable.len() == self.sections.len()
        &&& self.pages == feed_pages(self.snapshot, self.item_html)
        &&& self.markdown == markdown_page(self.sections, 0, 20)
    }
}

/// Bytes as hexadecimal digits, two for each.
pub open spec fn hex(bytes: Seq<u8>) -> Seq<char>
    decreases bytes.len(),
{
    if bytes.len() == 0 {
        Seq::empty()
    } else {
        hex(bytes.drop_last()).push(number::hex_lower(bytes.last() as int / 16)).push(
            number::hex_lower(bytes.last() as int % 16),
        )
    }
}

/// Bytes have two hexadecimal digits each, and nothing else.
proof fn lemma_hex(bytes: Seq<u8>)
    ensures
        hex(bytes).len() == 2 * bytes.len(),
        forall|i: int| 0 <= i < hex(bytes).len() ==> note::is_hex(#[trigger] hex(bytes)[i]),
    decreases bytes.len(),
{
    if bytes.len() > 0 {
        lemma_hex(bytes.drop_last());
    }
}

/// A text that can name a snapshot: sixteen hexadecimal digits.
pub open spec fn is_snapshot_name(s: Seq<char>) -> bool {
    s.len() == 16 && forall|i: int| 0 <= i < s.len() ==> note::is_hex(#[trigger] s[i])
}

/// What names a snapshot: the first sixteen digits of the SHA-256 digest of its
/// notes as JSON.
pub open spec fn snapshot_id(items: Seq<JsonView>) -> Seq<char> {
    digest_id(trusted::sha256(utf8::encode_utf8(JsonView::List(items).encoded())))
}

/// The first sixteen digits of a digest.
pub open spec fn digest_id(digest: Seq<u8>) -> Seq<char> {
    hex(digest).take(16)
}

fn hex_digit(d: u8) -> (r: char)
    requires
        d < 16,
    ensures
        r == number::hex_lower(d as int),
{
    if d < 10 {
        (48 + d) as char
    } else {
        (87 + d) as char
    }
}

/// The first sixteen digits of a digest.
pub fn id_of_digest(digest: &[u8]) -> (r: String)
    requires
        digest@.len() >= 8,
    ensures
        r@ == digest_id(digest@),
        is_snapshot_name(r@),
{
    let mut chars: Vec<char> = Vec::new();
    for i in 0..digest.len()
        invariant
            chars@ == hex(digest@.take(i as int)),
    {
        let b = digest[i];
        assert(digest@.take(i + 1).drop_last() == digest@.take(i as int));
        chars.push(hex_digit(b / 16));
        chars.push(hex_digit(b % 16));
    }
    assert(digest@.take(digest@.len() as int) == digest@);
    proof {
        lemma_hex(digest@);
    }
    assert(chars@.subrange(0, 16) == chars@.take(16));
    to_text(slice_subrange(chars.as_slice(), 0, 16))
}

/// The smaller of two numbers.
pub open spec fn min(a: int, b: int) -> int {
    if a <= b {
        a
    } else {
        b
    }
}

/// The piece of a list that a page shows: where it begins, where it ends, and
/// where the next page begins.
pub open spec fn page_bounds(total: nat, offset: nat, limit: nat) -> (int, int, Option<int>) {
    let start = min(offset as int, total as int);
    let end = min(start + limit, total as int);
    (
        start,
        end,
        if end < total {
            Some(end)
        } else {
            None
        },
    )
}

/// What a page of a list shows.
pub open spec fn shown<T>(items: Seq<T>, offset: nat, limit: nat) -> Seq<T> {
    let (start, end, _next) = page_bounds(items.len(), offset, limit);
    items.subrange(start, end)
}

/// What the pages of a list show, from a given one on to the last, each followed
/// by the one that it names as the next.
pub open spec fn followed<T>(items: Seq<T>, offset: nat, limit: nat) -> Seq<T>
    decreases items.len() - offset,
{
    match page_bounds(items.len(), offset, limit).2 {
        Some(next) => if next > offset {
            shown(items, offset, limit) + followed(items, next as nat, limit)
        } else {
            shown(items, offset, limit)
        },
        None => shown(items, offset, limit),
    }
}

/// Who follows the pages of a list from one to the next sees everything from
/// where they begin, in order, and nothing twice.
pub proof fn law_pages_show_everything<T>(items: Seq<T>, offset: nat, limit: nat)
    requires
        limit > 0,
    ensures
        followed(items, offset, limit) == items.skip(min(offset as int, items.len() as int)),
    decreases items.len() - offset,
{
    match page_bounds(items.len(), offset, limit).2 {
        Some(next) => {
            law_pages_show_everything(items, next as nat, limit);
            assert(items.subrange(offset as int, next) + items.skip(next) == items.skip(
                offset as int,
            ));
        },
        None => {
            let start = min(offset as int, items.len() as int);
            assert(items.subrange(start, items.len() as int) == items.skip(start));
        },
    }
}

/// The offsets of the pages of a list, from a given one on to the last, each
/// followed by the one that it names as the next.
pub open spec fn followed_offsets(total: nat, offset: nat, limit: nat) -> Seq<nat>
    decreases total - offset,
{
    match page_bounds(total, offset, limit).2 {
        Some(next) => if next > offset {
            seq![offset] + followed_offsets(total, next as nat, limit)
        } else {
            seq![offset]
        },
        None => seq![offset],
    }
}

/// What the pages at given offsets show, one after another.
pub open spec fn shown_at<T>(items: Seq<T>, offsets: Seq<nat>, limit: nat) -> Seq<T>
    decreases offsets.len(),
{
    if offsets.len() == 0 {
        Seq::empty()
    } else {
        shown(items, offsets[0], limit) + shown_at(items, offsets.drop_first(), limit)
    }
}

/// How many pages a number of items fills: as many as it takes, and at least one.
pub open spec fn pages_needed(total: nat, limit: nat) -> nat {
    if total == 0 {
        1
    } else {
        ((total + limit - 1) / limit as int) as nat
    }
}

/// The pages from an offset on: how many they are, where each begins, and what the
/// last one says.
proof fn lemma_followed_offsets(total: nat, offset: nat, limit: nat)
    requires
        limit > 0,
        offset <= total,
    ensures
        followed_offsets(total, offset, limit).len() == pages_needed(
            (total - offset) as nat,
            limit,
        ),
        forall|k: int|
            0 <= k < followed_offsets(total, offset, limit).len() ==> #[trigger] followed_offsets(
                total,
                offset,
                limit,
            )[k] == offset + k * limit && page_bounds(
                total,
                followed_offsets(total, offset, limit)[k],
                limit,
            ).2 == if k + 1 < followed_offsets(total, offset, limit).len() {
                Some(offset + (k + 1) * limit)
            } else {
                None
            },
    decreases total - offset,
{
    let all = followed_offsets(total, offset, limit);
    let left = total - offset;
    match page_bounds(total, offset, limit).2 {
        Some(next) => {
            let rest = followed_offsets(total, next as nat, limit);
            lemma_followed_offsets(total, next as nat, limit);
            assert(all == seq![offset] + rest);
            assert(next == offset + limit);
            vstd::arithmetic::div_mod::lemma_div_plus_one(left - 1, limit as int);
            assert((left - limit) + limit - 1 == left - 1);
            assert(left + limit - 1 == limit + (left - 1));
            assert forall|k: int| 0 <= k < all.len() implies #[trigger] all[k] == offset + k * limit
                && page_bounds(total, all[k], limit).2 == if k + 1 < all.len() {
                Some(offset + (k + 1) * limit)
            } else {
                None
            } by {
                if k == 0 {
                    assert(0 * limit == 0 && 1 * limit == limit);
                    assert(rest.len() > 0);
                } else {
                    assert(all[k] == rest[k - 1]);
                    assert(k * limit == (k - 1) * limit + limit) by (nonlinear_arith);
                    assert((k + 1) * limit == k * limit + limit) by (nonlinear_arith);
                }
            }
        },
        None => {
            assert(all == seq![offset]);
            assert(0 * limit == 0);
            if left > 0 {
                assert((left + limit - 1) / limit as int == 1) by (nonlinear_arith)
                    requires
                        0 < left <= limit,
                ;
            }
        },
    }
}

proof fn lemma_followed_is_shown<T>(items: Seq<T>, offset: nat, limit: nat)
    ensures
        followed(items, offset, limit) == shown_at(
            items,
            followed_offsets(items.len(), offset, limit),
            limit,
        ),
    decreases items.len() - offset,
{
    let offsets = followed_offsets(items.len(), offset, limit);
    let page = shown(items, offset, limit);
    match page_bounds(items.len(), offset, limit).2 {
        Some(next) if next > offset => {
            lemma_followed_is_shown(items, next as nat, limit);
            assert(offsets.drop_first() =~= followed_offsets(items.len(), next as nat, limit));
        },
        _ => {
            assert(offsets.drop_first() =~= Seq::<nat>::empty());
            assert(shown_at(items, offsets.drop_first(), limit) =~= Seq::<T>::empty());
            assert(page + Seq::<T>::empty() =~= page);
        },
    }
}

/// The pages of a list, followed from the first one, are as many as the items fill,
/// and at least one. Each begins where the one before it ends and names the next,
/// the last one names none, and what they show, one after another, is the list.
pub proof fn law_pages_are_counted<T>(items: Seq<T>, limit: nat)
    requires
        limit > 0,
    ensures
        ({
            let offsets = followed_offsets(items.len(), 0, limit);
            &&& offsets.len() == pages_needed(items.len(), limit)
            &&& forall|k: int|
                0 <= k < offsets.len() ==> #[trigger] offsets[k] == k * limit && page_bounds(
                    items.len(),
                    offsets[k],
                    limit,
                ).2 == if k + 1 < offsets.len() {
                    Some((k + 1) * limit)
                } else {
                    None
                }
            &&& shown_at(items, offsets, limit) == items
        }),
{
    lemma_followed_offsets(items.len(), 0, limit);
    lemma_followed_is_shown(items, 0, limit);
    law_pages_show_everything(items, 0, limit);
    assert(items.skip(0) =~= items);
}

/// The members of one page of the feed as JSON.
pub open spec fn page_members(
    snapshot: Seq<char>,
    offset: nat,
    total: nat,
    html: Seq<char>,
) -> Seq<MemberView> {
    seq![
        MemberView { key: "html"@, value: JsonView::Text(html) },
        MemberView { key: "offset"@, value: JsonView::Number(number::decimal(offset)) },
        MemberView { key: "snapshotId"@, value: JsonView::Text(snapshot) },
        MemberView { key: "total"@, value: JsonView::Number(number::decimal(total)) },
    ]
}

/// One page of the feed as JSON.
pub open spec fn page_json(snapshot: Seq<char>, offset: nat, total: nat, html: Seq<char>) -> Seq<
    char,
> {
    JsonView::Object(page_members(snapshot, offset, total, html)).encoded()
}

/// One page of the feed as JSON.
pub fn render_page(snapshot: &str, offset: usize, total: usize, html: String) -> (r: String)
    ensures
        r@ == page_json(snapshot@, offset as nat, total as nat, html@),
{
    let ghost page = html@;
    let mut members: Vec<(String, Json)> = Vec::new();
    members.push(("html".to_owned(), Json::Text(html)));
    members.push(("offset".to_owned(), Json::Number(decimal_text(offset as u64))));
    members.push(("snapshotId".to_owned(), Json::Text(snapshot.to_owned())));
    members.push(("total".to_owned(), Json::Number(decimal_text(total as u64))));
    let ghost list = members@;
    let object = Json::Object(members);
    assert(list[0].1@ == JsonView::Text(page));
    assert(list[1].1@ == JsonView::Number(number::decimal(offset as nat)));
    assert(list[2].1@ == JsonView::Text(snapshot@));
    assert(list[3].1@ == JsonView::Number(number::decimal(total as nat)));
    assert(object@->Object_0 =~= page_members(snapshot@, offset as nat, total as nat, page));
    object.encode()
}

/// How many pages of twenty some notes fill.
pub open spec fn page_count(total: nat) -> nat {
    (total + 19) / 20
}

/// The pages of the feed as JSON.
pub open spec fn feed_pages(snapshot: Seq<char>, items: Seq<Seq<char>>) -> Seq<Seq<char>> {
    Seq::new(
        page_count(items.len()),
        |k: int|
            page_json(
                snapshot,
                (20 * k) as nat,
                items.len(),
                text::concat(shown(items, (20 * k) as nat, 20)),
            ),
    )
}

/// The pages of the feed as JSON.
pub fn render_pages(snapshot: &str, items: &Vec<String>) -> (r: Vec<String>)
    ensures
        text::views(r@) == feed_pages(snapshot@, text::views(items@)),
{
    let ghost all = text::views(items@);
    let ghost pages = feed_pages(snapshot@, all);
    let mut out: Vec<String> = Vec::new();
    let total = items.len();
    let mut start: usize = 0;
    while start < total
        invariant
            total == items@.len(),
            all == text::views(items@),
            pages == feed_pages(snapshot@, all),
            start == min(20 * out@.len() as int, total as int),
            start < total ==> start == 20 * out@.len(),
            out@.len() <= pages.len(),
            start == total ==> out@.len() == pages.len(),
            text::views(out@) == pages.take(out@.len() as int),
        decreases total - start,
    {
        let end = if total - start > 20 {
            start + 20
        } else {
            total
        };
        let chunk = slice_subrange(items.as_slice(), start, end);
        let ghost k = out@.len() as int;
        assert(text::views(chunk@) == shown(all, start as nat, 20));
        let html = concat_texts(chunk);
        let page = render_page(snapshot, start, total, html);
        let ghost before = text::views(out@);
        assert(page@ == pages[k]);
        out.push(page);
        assert(text::views(out@) == before.push(pages[k]));
        assert(pages.take(k + 1) == pages.take(k).push(pages[k]));
        start = end;
    }
    assert(pages.take(pages.len() as int) == pages);
    out
}

/// The template with the number of pages and the snapshot in place of their marks.
pub open spec fn titled_html(template: Seq<char>, snapshot: Seq<char>, total: nat) -> Seq<char> {
    text::replace(
        text::replace(template, "__FEED_PAGES__"@, number::decimal(page_count(total))),
        "__FEED_SNAPSHOT__"@,
        snapshot,
    )
}

/// The page with the newest notes: the template with the number of pages, the
/// snapshot and then the first twenty notes in place of their marks. Where there
/// is no other page, its status says so.
pub open spec fn home_html(template: Seq<char>, snapshot: Seq<char>, items: Seq<Seq<char>>) -> Seq<
    char,
> {
    let filled = text::replace(
        titled_html(template, snapshot, items.len()),
        "__FEED_ITEMS__"@,
        text::concat(shown(items, 0, 20)),
    );
    if page_count(items.len()) <= 1 {
        text::replace(filled, "id=\"feed-status\""@, "data-complete=\"true\" id=\"feed-status\""@)
    } else {
        filled
    }
}

/// The page with the newest notes.
pub fn render_home(template: &str, snapshot: &str, items: &Vec<String>, pages: usize) -> (r: String)
    requires
        pages == page_count(items@.len()),
    ensures
        r@ == home_html(template@, snapshot@, text::views(items@)),
{
    let n = if items.len() < 20 {
        items.len()
    } else {
        20
    };
    let first = slice_subrange(items.as_slice(), 0, n);
    assert(text::views(first@) == shown(text::views(items@), 0, 20));
    let newest = concat_texts(first);
    let counted = replaced(
        to_chars(template).as_slice(),
        to_chars("__FEED_PAGES__").as_slice(),
        to_chars(decimal_text(pages as u64).as_str()).as_slice(),
    );
    let named = replaced(
        counted.as_slice(),
        to_chars("__FEED_SNAPSHOT__").as_slice(),
        to_chars(snapshot).as_slice(),
    );
    let filled = replaced(
        named.as_slice(),
        to_chars("__FEED_ITEMS__").as_slice(),
        to_chars(newest.as_str()).as_slice(),
    );
    if pages <= 1 {
        let done = replaced(
            filled.as_slice(),
            to_chars("id=\"feed-status\"").as_slice(),
            to_chars("data-complete=\"true\" id=\"feed-status\"").as_slice(),
        );
        to_text(done.as_slice())
    } else {
        to_text(filled.as_slice())
    }
}

/// A page of notes as Markdown, with a link to the next page or a line that says
/// that there is none.
pub open spec fn markdown_page(sections: Seq<Seq<char>>, offset: nat, limit: nat) -> Seq<char> {
    "# Zexi's Notes\n\n"@ + LLM_GUIDE@ + text::concat(shown(sections, offset, limit)) + (
    match page_bounds(sections.len(), offset, limit).2 {
        Some(next) => "[下一页](https://zexi.me/llms.txt?"@ + query::form_encoded(
            query::page_pairs(next as nat, limit),
        ) + ")\n"@,
        None => "已到最后一页。\n"@,
    })
}

impl Cache {
    /// A page of the notes as Markdown.
    pub fn markdown(&self, offset: usize, limit: usize) -> (r: String)
        ensures
            r@ == markdown_page(self@.sections, offset as nat, limit as nat),
    {
        let total = self.sections.len();
        let start = if offset < total {
            offset
        } else {
            total
        };
        let end = if limit < total - start {
            start + limit
        } else {
            total
        };
        let mut body = "# Zexi's Notes\n\n".to_owned();
        body.append(LLM_GUIDE);
        let page = slice_subrange(self.sections.as_slice(), start, end);
        assert(text::views(page@) == shown(self@.sections, offset as nat, limit as nat));
        body.append(concat_texts(page).as_str());
        if end < total {
            let mut link = "[下一页](https://zexi.me/llms.txt?".to_owned();
            link.append(page_params(end, limit).as_str());
            link.append(")\n");
            body.append(link.as_str());
        } else {
            body.append("已到最后一页。\n");
        }
        body
    }
}

/// The first mark that a template lacks.
pub open spec fn missing_mark(template: Seq<char>) -> Option<Seq<char>> {
    if !text::contains(template, "__FEED_ITEMS__"@) {
        Some("__FEED_ITEMS__"@)
    } else if !text::contains(template, "__FEED_PAGES__"@) {
        Some("__FEED_PAGES__"@)
    } else if !text::contains(template, "__FEED_SNAPSHOT__"@) {
        Some("__FEED_SNAPSHOT__"@)
    } else {
        None
    }
}

/// A note of a feed: it has an id and a text.
pub open spec fn valid_item(item: JsonView) -> bool {
    item.text("id"@).len() > 0 && item.get("text"@) is Text
}

/// Notes that all are valid and have ids of their own.
pub open spec fn valid_items(items: Seq<JsonView>) -> bool {
    &&& forall|i: int| 0 <= i < items.len() ==> valid_item(#[trigger] items[i])
    &&& forall|i: int, j: int|
        0 <= i < j < items.len() ==> (#[trigger] items[i]).text("id"@) != (
        #[trigger] items[j]).text("id"@)
}

/// Why a feed or a template is refused before any note is rendered.
pub open spec fn refusal(data: JsonView, template: Seq<char>) -> Option<Seq<char>> {
    let items = data.get("items"@);
    if missing_mark(template) is Some {
        Some("Missing template marker "@ + missing_mark(template)->0)
    } else if !(items is List) {
        Some("Invalid items"@)
    } else if data.get("total"@).as_number() != Some(items.elements().len()) {
        Some("Invalid total"@)
    } else if !valid_items(items.elements()) {
        Some("Invalid item"@)
    } else {
        None
    }
}

/// What a search looks at of a note: its title, its text and what it quotes.
pub open spec fn searchable_text(item: JsonView) -> Seq<char> {
    item.text("title"@) + "\n"@ + item.text("text"@) + "\n"@ + html::quotes_as_md(
        item.get("quotes"@).elements(),
        0,
    )
}

/// A snapshot that is put together of rendered notes.
pub open spec fn assembled(
    snapshot: Seq<char>,
    template: Seq<char>,
    item_html: Seq<Seq<char>>,
    sections: Seq<Seq<char>>,
    searchable: Seq<Seq<char>>,
) -> CacheView {
    CacheView {
        snapshot,
        html: home_html(template, snapshot, item_html),
        pages: feed_pages(snapshot, item_html),
        sections,
        item_html,
        searchable,
        markdown: markdown_page(sections, 0, 20),
    }
}

/// Notes as HTML.
pub open spec fn notes_html(notes: Seq<JsonView>, emojis: JsonView) -> Seq<Seq<char>> {
    notes.map_values(
        |item: JsonView| note::item_html(item, emojis, note::note_date(item)->0),
    )
}

/// Notes as Markdown.
pub open spec fn notes_md(notes: Seq<JsonView>) -> Seq<Seq<char>> {
    notes.map_values(|item: JsonView| note::item_md(item, note::note_date(item)->0))
}

/// What a search looks at of notes.
pub open spec fn notes_searchable(notes: Seq<JsonView>) -> Seq<Seq<char>> {
    notes.map_values(|item: JsonView| searchable_text(item))
}

/// All notes have a date.
pub open spec fn all_dated(notes: Seq<JsonView>) -> bool {
    forall|i: int| 0 <= i < notes.len() ==> note::note_date(#[trigger] notes[i]) is Some
}

/// The snapshot of a feed, or the reason why there is none.
pub open spec fn built(data: JsonView, template: Seq<char>, emojis: JsonView) -> Result<
    CacheView,
    Seq<char>,
> {
    let items = data.get("items"@).elements();
    let notes = newest_first(items);
    if refusal(data, template) is Some {
        Err(refusal(data, template)->0)
    } else if !all_dated(notes) {
        Err("Invalid publication date"@)
    } else {
        Ok(
            assembled(
                snapshot_id(items),
                template,
                notes_html(notes, emojis),
                notes_md(notes),
                notes_searchable(notes),
            ),
        )
    }
}

/// The dates of the notes that come to be rendered can all be shown.
pub open spec fn renderable(notes: Seq<JsonView>) -> bool {
    forall|i: int|
        0 <= i < notes.len() && all_dated(notes.take(i)) ==> note::showable(#[trigger] notes[i])
}

/// A feed that is refused before any note is rendered, or whose notes can be
/// rendered.
pub open spec fn buildable(data: JsonView, template: Seq<char>) -> bool {
    refusal(data, template) is None ==> renderable(newest_first(data.get("items"@).elements()))
}

/// Whether all notes are valid and have ids of their own.
fn are_valid_items(items: &Vec<Json>) -> (r: bool)
    ensures
        r == valid_items(json::json_views(items@)),
{
    let ghost all = json::json_views(items@);
    let mut ids: Vec<String> = Vec::new();
    for i in 0..items.len()
        invariant
            all == json::json_views(items@),
            ids@.len() == i,
            forall|k: int| 0 <= k < i ==> #[trigger] ids@[k]@ == all[k].text("id"@),
            forall|k: int| 0 <= k < i ==> valid_item(#[trigger] all[k]),
            forall|k: int, l: int|
                0 <= k < l < i ==> (#[trigger] all[k]).text("id"@) != (#[trigger] all[l]).text(
                    "id"@,
                ),
    {
        let item = &items[i];
        assert(all[i as int] == item@);
        let id = item.text("id").to_owned();
        let has_text = match item.find("text") {
            Some(Json::Text(_)) => true,
            _ => false,
        };
        if id.as_str().is_empty() || !has_text {
            assert(!valid_item(all[i as int]));
            return false;
        }
        for k in 0..ids.len()
            invariant
                i < all.len(),
                ids@.len() == i,
                id@ == all[i as int].text("id"@),
                all == json::json_views(items@),
                forall|k: int| 0 <= k < i ==> #[trigger] ids@[k]@ == all[k].text("id"@),
                forall|l: int| 0 <= l < k ==> #[trigger] ids@[l]@ != id@,
        {
            if ids[k] == id {
                assert(all[k as int].text("id"@) == all[i as int].text("id"@));
                return false;
            }
        }
        assert forall|k: int| 0 <= k < i implies (#[trigger] all[k]).text("id"@) != id@ by {
            assert(ids@[k]@ == all[k].text("id"@));
        }
        ids.push(id);
    }
    true
}

/// The notes of a feed, or why a feed or a template is refused before any note is
/// rendered.
pub fn check_feed<'a>(data: &'a Json, template: &str) -> (r: Result<&'a Vec<Json>, String>)
    ensures
        match r {
            Ok(items) => refusal(data@, template@) is None && data@.get("items"@)
                == JsonView::List(json::json_views(items@)),
            Err(message) => refusal(data@, template@) == Some(message@),
        },
{
    let chars = to_chars(template);
    let page = chars.as_slice();
    let mut message = "Missing template marker ".to_owned();
    if !has_text(page, to_chars("__FEED_ITEMS__").as_slice()) {
        message.append("__FEED_ITEMS__");
        return Err(message);
    }
    if !has_text(page, to_chars("__FEED_PAGES__").as_slice()) {
        message.append("__FEED_PAGES__");
        return Err(message);
    }
    if !has_text(page, to_chars("__FEED_SNAPSHOT__").as_slice()) {
        message.append("__FEED_SNAPSHOT__");
        return Err(message);
    }
    let items = match data.list("items") {
        Some(items) => items,
        None => return Err("Invalid items".to_owned()),
    };
    let total = match data.find("total") {
        Some(value) => value.as_number(),
        None => None,
    };
    let counted = match total {
        Some(n) => n == items.len() as u64,
        None => false,
    };
    if !counted {
        return Err("Invalid total".to_owned());
    }
    if !are_valid_items(items) {
        return Err("Invalid item".to_owned());
    }
    Ok(items)
}

/// What names the snapshot of some notes.
pub fn snapshot_of(items: &Vec<Json>) -> (r: String)
    ensures
        r@ == snapshot_id(json::json_views(items@)),
        is_snapshot_name(r@),
{
    let encoded = json::encode_list(items);
    let digest = sha256_digest(encoded.as_str().as_bytes());
    id_of_digest(digest.as_slice())
}

/// What a search looks at of a note.
pub fn search_text(item: &Json) -> (r: String)
    ensures
        r@ == searchable_text(item@),
{
    let mut out = item.text("title").to_owned();
    out.append("\n");
    out.append(item.text("text"));
    out.append("\n");
    out.append(nested_md(item).as_str());
    out
}

impl Cache {
    /// Puts a snapshot together of rendered notes.
    pub fn assemble(
        snapshot: String,
        template: &str,
        item_html: Vec<String>,
        sections: Vec<String>,
        searchable: Vec<String>,
    ) -> (r: Cache)
        ensures
            r@ == assembled(
                snapshot@,
                template@,
                text::views(item_html@),
                text::views(sections@),
                text::views(searchable@),
            ),
    {
        let pages = render_pages(snapshot.as_str(), &item_html);
        assert(text::views(pages@).len() == pages@.len());
        let html = render_home(template, snapshot.as_str(), &item_html, pages.len());
        let mut cache = Cache {
            snapshot,
            html,
            pages,
            sections,
            item_html,
            searchable,
            markdown: String::new(),
        };
        let markdown = cache.markdown(0, 20);
        cache.markdown = markdown;
        cache
    }

    /// The snapshot of a feed: its notes from the newest to the oldest, rendered
    /// with a template and a table of emoji.
    pub fn build(data: &Json, template: &str, emojis: &Json) -> (r: Result<Cache, String>)
        requires
            buildable(data@, template@),
        ensures
            match r {
                Ok(cache) => built(data@, template@, emojis@) == Ok::<CacheView, Seq<char>>(
                    cache@,
                ) && cache@.well_formed(),
                Err(message) => built(data@, template@, emojis@) == Err::<CacheView, Seq<char>>(
                    message@,
                ),
            },
    {
        let items = match check_feed(data, template) {
            Ok(items) => items,
            Err(message) => return Err(message),
        };
        let snapshot = snapshot_of(items);
        let notes = sort_notes(items);
        let ghost all = newest_first(data@.get("items"@).elements());
        let mut item_html: Vec<String> = Vec::new();
        let mut sections: Vec<String> = Vec::new();
        let mut searchable: Vec<String> = Vec::new();
        for i in 0..notes.len()
            invariant
                refusal(data@, template@) is None,
                all == newest_first(data@.get("items"@).elements()),
                all == ref_views(notes@),
                renderable(all),
                all_dated(all.take(i as int)),
                text::views(item_html@) == notes_html(all, emojis@).take(i as int),
                text::views(sections@) == notes_md(all).take(i as int),
                text::views(searchable@) == notes_searchable(all).take(i as int),
        {
            let item = notes[i];
            assert(all[i as int] == item@);
            match render_item(item, emojis) {
                Err(message) => {
                    assert(!all_dated(all));
                    return Err(message);
                },
                Ok(pair) => {
                    let ghost before_html = text::views(item_html@);
                    let ghost before_md = text::views(sections@);
                    let ghost before_text = text::views(searchable@);
                    item_html.push(pair.0);
                    sections.push(pair.1);
                    searchable.push(search_text(item));
                    proof {
                        let h = notes_html(all, emojis@);
                        let m = notes_md(all);
                        let s = notes_searchable(all);
                        assert(text::views(item_html@) == before_html.push(h[i as int]));
                        assert(text::views(sections@) == before_md.push(m[i as int]));
                        assert(text::views(searchable@) == before_text.push(s[i as int]));
                        assert(h.take(i + 1) == h.take(i as int).push(h[i as int]));
                        assert(m.take(i + 1) == m.take(i as int).push(m[i as int]));
                        assert(s.take(i + 1) == s.take(i as int).push(s[i as int]));
                        assert(all.take(i + 1) == all.take(i as int).push(all[i as int]));
                    }
                },
            }
        }
        proof {
            let n = all.len() as int;
            assert(all.take(n) == all);
            assert(notes_html(all, emojis@).take(n) == notes_html(all, emojis@));
            assert(notes_md(all).take(n) == notes_md(all));
            assert(notes_searchable(all).take(n) == notes_searchable(all));
        }
        Ok(Cache::assemble(snapshot, template, item_html, sections, searchable))
    }

    /// The snapshot of a feed, where the dates of the notes that come to be
    /// rendered can be shown.
    pub fn try_build(data: &Json, template: &str, emojis: &Json) -> (r: Option<
        Result<Cache, String>,
    >)
        ensures
            match r {
                Some(Ok(cache)) => buildable(data@, template@) && built(data@, template@, emojis@)
                    == Ok::<CacheView, Seq<char>>(cache@) && cache@.well_formed(),
                Some(Err(message)) => buildable(data@, template@) && built(
                    data@,
                    template@,
                    emojis@,
                ) == Err::<CacheView, Seq<char>>(message@),
                None => !buildable(data@, template@),
            },
    {
        if is_buildable(data, template) {
            Some(Cache::build(data, template, emojis))
        } else {
            None
        }
    }
}

/// Whether a feed is refused before any note is rendered, or has notes that can
/// be rendered.
pub fn is_buildable(data: &Json, template: &str) -> (r: bool)
    ensures
        r == buildable(data@, template@),
{
    let items = match check_feed(data, template) {
        Ok(items) => items,
        Err(_) => return true,
    };
    let notes = sort_notes(items);
    let ghost all = newest_first(data@.get("items"@).elements());
    for i in 0..notes.len()
        invariant
            refusal(data@, template@) is None,
            all == newest_first(data@.get("items"@).elements()),
            all == ref_views(notes@),
            all_dated(all.take(i as int)),
            forall|j: int|
                0 <= j < i && all_dated(all.take(j)) ==> note::showable(#[trigger] all[j]),
    {
        let item = notes[i];
        assert(all[i as int] == item@);
        if !is_showable(item) {
            return false;
        }
        if note::date(item).is_err() {
            assert forall|j: int| 0 <= j < all.len() && all_dated(all.take(j)) implies
                note::showable(#[trigger] all[j]) by {
                if j > i {
                    assert(all.take(j)[i as int] == all[i as int]);
                }
            }
            return true;
        }
        assert(all.take(i + 1) == all.take(i as int).push(all[i as int]));
    }
    true
}

/// The places at which a list is true, in order.
pub open spec fn true_places(flags: Seq<bool>) -> Seq<int>
    decreases flags.len(),
{
    if flags.len() == 0 {
        Seq::empty()
    } else if flags.last() {
        true_places(flags.drop_last()).push(flags.len() - 1)
    } else {
        true_places(flags.drop_last())
    }
}

/// Places as numbers.
pub open spec fn places(v: Seq<usize>) -> Seq<int> {
    v.map_values(|i: usize| i as int)
}

/// The places at which a list is true, in order.
pub fn places_of(flags: &Vec<bool>) -> (r: Vec<usize>)
    ensures
        places(r@) == true_places(flags@),
{
    let mut out: Vec<usize> = Vec::new();
    assert(places(out@) == Seq::<int>::empty());
    for i in 0..flags.len()
        invariant
            places(out@) == true_places(flags@.take(i as int)),
    {
        assert(flags@.take(i + 1).drop_last() == flags@.take(i as int));
        let ghost before = places(out@);
        if flags[i] {
            out.push(i);
            assert(places(out@) == before.push(i as int));
        }
    }
    assert(flags@.take(flags@.len() as int) == flags@);
    out
}

/// For every text whether it holds a keyword, in whatever case.
pub open spec fn keyword_flags(texts: Seq<Seq<char>>, q: Seq<char>) -> Seq<bool> {
    texts.map_values(
        |s: Seq<char>| text::contains(trusted::lowercase(s), trusted::lowercase(q)),
    )
}

/// For every text whether a regular expression matches in it, in whatever case.
pub open spec fn regex_flags(texts: Seq<Seq<char>>, q: Seq<char>) -> Seq<bool> {
    texts.map_values(|s: Seq<char>| trusted::regex_match(q, true, 1000000, 1000000, s))
}

/// The notes that a search finds.
pub open spec fn found(texts: Seq<Seq<char>>, query: QueryView) -> Seq<int> {
    true_places(
        if query.regex {
            regex_flags(texts, query.q)
        } else {
            keyword_flags(texts, query.q)
        },
    )
}

/// For every text whether it holds a keyword. Texts and keyword are in lower
/// case.
pub fn holds_keyword(texts: &Vec<String>, keyword: &str) -> (r: Vec<bool>)
    ensures
        r@ == text::views(texts@).map_values(|s: Seq<char>| text::contains(s, keyword@)),
{
    let needle = to_chars(keyword);
    let ghost all = text::views(texts@).map_values(|s: Seq<char>| text::contains(s, keyword@));
    let mut out: Vec<bool> = Vec::new();
    for i in 0..texts.len()
        invariant
            needle@ == keyword@,
            all == text::views(texts@).map_values(|s: Seq<char>| text::contains(s, keyword@)),
            out@ == all.take(i as int),
    {
        let chars = to_chars(texts[i].as_str());
        out.push(has_text(chars.as_slice(), needle.as_slice()));
        assert(all.take(i + 1) == all.take(i as int).push(all[i as int]));
    }
    assert(all.take(all.len() as int) == all);
    out
}

/// The texts at given places.
pub open spec fn pick(texts: Seq<Seq<char>>, at: Seq<int>) -> Seq<Seq<char>> {
    at.map_values(|i: int| texts[i])
}

/// A page of a search as Markdown.
pub open spec fn search_md(cache: CacheView, query: QueryView, matches: Seq<int>) -> Seq<char> {
    "# Zexi's Notes 搜索\n\n"@ + LLM_GUIDE@ + "共找到 "@ + number::decimal(matches.len())
        + " 条笔记。\n\n"@ + text::concat(
        pick(cache.sections, shown(matches, query.offset, query.limit)),
    ) + (match page_bounds(matches.len(), query.offset, query.limit).2 {
        Some(next) => "[下一页](https://zexi.me/llms.txt?"@ + query::form_encoded(
            query.pairs(next as nat, cache.snapshot),
        ) + ")\n"@,
        None => if matches.len() == 0 {
            "没有找到匹配的笔记。\n"@
        } else {
            "已到最后一页。\n"@
        },
    })
}

/// The members of a page of a search as JSON.
pub open spec fn search_members(
    cache: CacheView,
    query: QueryView,
    matches: Seq<int>,
) -> Seq<MemberView> {
    seq![
        MemberView {
            key: "html"@,
            value: JsonView::Text(
                text::concat(
                    pick(cache.item_html, shown(matches, query.offset, query.limit)),
                ),
            ),
        },
        MemberView { key: "limit"@, value: JsonView::Number(number::decimal(query.limit)) },
        MemberView {
            key: "nextOffset"@,
            value: match page_bounds(matches.len(), query.offset, query.limit).2 {
                Some(next) => JsonView::Number(number::decimal(next as nat)),
                None => JsonView::Null,
            },
        },
        MemberView { key: "offset"@, value: JsonView::Number(number::decimal(query.offset)) },
        MemberView { key: "query"@, value: JsonView::Text(query.q) },
        MemberView { key: "regex"@, value: JsonView::Bool(query.regex) },
        MemberView { key: "snapshotId"@, value: JsonView::Text(cache.snapshot) },
        MemberView { key: "total"@, value: JsonView::Number(number::decimal(matches.len())) },
    ]
}

/// A page of a search.
pub open spec fn search_page(
    cache: CacheView,
    query: QueryView,
    matches: Seq<int>,
    markdown: bool,
) -> Seq<char> {
    if markdown {
        search_md(cache, query, matches)
    } else {
        JsonView::Object(search_members(cache, query, matches)).encoded()
    }
}

/// Places that lie in a list of a given length.
pub open spec fn in_range(at: Seq<int>, len: nat) -> bool {
    forall|i: int| 0 <= i < at.len() ==> 0 <= #[trigger] at[i] < len
}

/// The strings at given places, one after another.
fn concat_at(texts: &Vec<String>, at: &[usize]) -> (r: String)
    requires
        in_range(places(at@), texts@.len()),
    ensures
        r@ == text::concat(pick(text::views(texts@), places(at@))),
{
    let ghost all = pick(text::views(texts@), places(at@));
    let mut out = String::new();
    assert(all.take(0) == Seq::<Seq<char>>::empty());
    for i in 0..at.len()
        invariant
            in_range(places(at@), texts@.len()),
            all == pick(text::views(texts@), places(at@)),
            out@ == text::concat(all.take(i as int)),
    {
        assert(places(at@)[i as int] == at@[i as int]);
        assert(all[i as int] == texts@[at@[i as int] as int]@);
        assert(all.take(i + 1).drop_last() == all.take(i as int));
        out.append(texts[at[i]].as_str());
    }
    assert(all.take(all.len() as int) == all);
    out
}

/// The notes that a search finds, given for every note whether it matches, or why
/// the expression that was looked for is refused.
pub fn search_outcome(flags: Result<Vec<bool>, RegexRefusal>) -> (r: Result<
    Vec<usize>,
    &'static str,
>)
    ensures
        match flags {
            Ok(flags) => r is Ok && places(r->Ok_0@) == true_places(flags@),
            Err(_) => r is Err && r->Err_0@ == "正则表达式无效或过于复杂，请修改后重试。"@,
        },
{
    match flags {
        Ok(flags) => Ok(places_of(&flags)),
        Err(_) => Err("正则表达式无效或过于复杂，请修改后重试。"),
    }
}

/// All places of a list of a given length.
pub open spec fn all_places(len: nat) -> Seq<int> {
    Seq::new(len, |i: int| i)
}

/// A list that is true throughout is true at all places.
proof fn lemma_all_true(flags: Seq<bool>)
    requires
        forall|i: int| 0 <= i < flags.len() ==> #[trigger] flags[i],
    ensures
        true_places(flags) == all_places(flags.len()),
    decreases flags.len(),
{
    if flags.len() > 0 {
        lemma_all_true(flags.drop_last());
        assert(all_places((flags.len() - 1) as nat).push(flags.len() - 1) =~= all_places(
            flags.len(),
        ));
    } else {
        assert(true_places(flags) =~= all_places(0));
    }
}

/// A search that can be carried out: one for a keyword, or one for a pattern that
/// is a regular expression.
pub open spec fn is_expression(query: QueryView) -> bool {
    query.regex ==> trusted::regex_valid(query.q, true)
}

impl Cache {
    /// The notes that a search finds, from the newest to the oldest. A keyword is
    /// looked for as it stands, and the empty one stands everywhere. A pattern that
    /// is no regular expression, or one that is too large, is refused.
    pub fn search(&self, query: &SearchQuery) -> (r: Result<Vec<usize>, &'static str>)
        ensures
            !query.regex ==> r is Ok,
            !is_expression(query@) ==> r is Err,
            match r {
                Ok(matches) => places(matches@) == found(self@.searchable, query@),
                Err(message) => message@ == "正则表达式无效或过于复杂，请修改后重试。"@,
            },
            !query.regex && query@.q.len() == 0 ==> places(r->Ok_0@) == all_places(
                self@.searchable.len(),
            ),
    {
        if query.regex {
            let flags = regex_matches(query.q.as_str(), true, 1000000, 1000000, &self.searchable);
            assert(flags is Ok ==> flags->Ok_0@ =~= regex_flags(self@.searchable, query@.q));
            search_outcome(flags)
        } else {
            let keyword = to_lowercase(query.q.as_str());
            let mut lowered: Vec<String> = Vec::new();
            for i in 0..self.searchable.len()
                invariant
                    lowered@.len() == i,
                    forall|k: int|
                        0 <= k < i ==> #[trigger] lowered@[k]@ == trusted::lowercase(
                            self.searchable@[k]@,
                        ),
            {
                lowered.push(to_lowercase(self.searchable[i].as_str()));
            }
            let flags = holds_keyword(&lowered, keyword.as_str());
            assert(flags@ =~= keyword_flags(self@.searchable, query@.q));
            proof {
                if query@.q.len() == 0 {
                    assert forall|i: int| 0 <= i < flags@.len() implies #[trigger] flags@[i] by {
                        let s = lowered@[i]@;
                        assert(s.take(0) =~= keyword@);
                        assert(text::starts_with(s, keyword@));
                    }
                    lemma_all_true(flags@);
                }
            }
            search_outcome(Ok(flags))
        }
    }

    /// A page of the notes that a search found, as Markdown or as JSON.
    pub fn render_search(&self, query: &SearchQuery, matches: &Vec<usize>, markdown: bool) -> (r:
        String)
        requires
            self@.well_formed(),
            in_range(places(matches@), self@.sections.len()),
        ensures
            r@ == search_page(self@, query@, places(matches@), markdown),
    {
        let total = matches.len();
        let start = if query.offset < total {
            query.offset
        } else {
            total
        };
        let end = if query.limit < total - start {
            start + query.limit
        } else {
            total
        };
        let ghost all = places(matches@);
        assert((start as int, end as int) == (
            page_bounds(total as nat, query@.offset, query@.limit).0,
            page_bounds(total as nat, query@.offset, query@.limit).1,
        ));
        let page = slice_subrange(matches.as_slice(), start, end);
        assert(places(page@) == shown(all, query@.offset, query@.limit));
        assert forall|i: int| 0 <= i < places(page@).len() implies 0 <= #[trigger] places(
            page@,
        )[i] < self@.sections.len() by {
            assert(places(page@)[i] == all[start + i]);
        }
        if markdown {
            let mut body = "# Zexi's Notes 搜索\n\n".to_owned();
            body.append(LLM_GUIDE);
            body.append("共找到 ");
            body.append(decimal_text(total as u64).as_str());
            body.append(" 条笔记。\n\n");
            body.append(concat_at(&self.sections, page).as_str());
            if end < total {
                let mut link = "[下一页](https://zexi.me/llms.txt?".to_owned();
                link.append(query.params(end, self.snapshot.as_str()).as_str());
                link.append(")\n");
                body.append(link.as_str());
            } else if total == 0 {
                body.append("没有找到匹配的笔记。\n");
            } else {
                body.append("已到最后一页。\n");
            }
            body
        } else {
            let html = concat_at(&self.item_html, page);
            let next = if end < total {
                Json::Number(decimal_text(end as u64))
            } else {
                Json::Null
            };
            let mut members: Vec<(String, Json)> = Vec::new();
            members.push(("html".to_owned(), Json::Text(html)));
            members.push(("limit".to_owned(), Json::Number(decimal_text(query.limit as u64))));
            members.push(("nextOffset".to_owned(), next));
            members.push(("offset".to_owned(), Json::Number(decimal_text(query.offset as u64))));
            members.push(("query".to_owned(), Json::Text(query.q.clone())));
            members.push(("regex".to_owned(), Json::Bool(query.regex)));
            members.push(("snapshotId".to_owned(), Json::Text(self.snapshot.clone())));
            members.push(("total".to_owned(), Json::Number(decimal_text(total as u64))));
            let ghost list = members@;
            let object = Json::Object(members);
            proof {
                let expected = search_members(self@, query@, all);
                assert(list[0].1@ == expected[0].value);
                assert(list[1].1@ == expected[1].value);
                assert(list[2].1@ == expected[2].value);
                assert(list[3].1@ == expected[3].value);
                assert(list[4].1@ == expected[4].value);
                assert(list[5].1@ == expected[5].value);
                assert(list[6].1@ == expected[6].value);
                assert(list[7].1@ == expected[7].value);
                assert(object@->Object_0 =~= expected);
            }
            object.encode()
        }
    }

    /// A page of a search, as Markdown or as JSON.
    pub fn search_body(&self, query: &SearchQuery, markdown: bool) -> (r: Result<
        String,
        &'static str,
    >)
        requires
            self@.well_formed(),
        ensures
            !query.regex ==> r is Ok,
            !is_expression(query@) ==> r is Err,
            match r {
                Ok(body) => body@ == search_page(
                    self@,
                    query@,
                    found(self@.searchable, query@),
                    markdown,
                ),
                Err(message) => message@ == "正则表达式无效或过于复杂，请修改后重试。"@,
            },
            !query.regex && query@.q.len() == 0 ==> r->Ok_0@ == search_page(
                self@,
                query@,
                all_places(self@.searchable.len()),
                markdown,
            ),
    {
        match self.search(query) {
            Err(message) => Err(message),
            Ok(matches) => {
                proof {
                    law_search_finds_exactly_the_matches(self@.searchable, query@);
                }
                Ok(self.render_search(query, &matches, markdown))
            },
        }
    }
}

/// The places at which a list is true are all of them and no others, each once and
/// in order.
proof fn lemma_true_places(flags: Seq<bool>)
    ensures
        in_range(true_places(flags), flags.len()),
        forall|i: int, j: int|
            0 <= i < j < true_places(flags).len() ==> #[trigger] true_places(flags)[i]
                < #[trigger] true_places(flags)[j],
        forall|i: int|
            0 <= i < flags.len() ==> (#[trigger] flags[i] <==> true_places(flags).contains(i)),
    decreases flags.len(),
{
    if flags.len() > 0 {
        let front = flags.drop_last();
        lemma_true_places(front);
        let inner = true_places(front);
        let all = true_places(flags);
        assert forall|i: int| 0 <= i < all.len() implies 0 <= #[trigger] all[i] < flags.len() by {
            if i < inner.len() {
                assert(all[i] == inner[i]);
            }
        }
        assert forall|i: int, j: int| 0 <= i < j < all.len() implies #[trigger] all[i]
            < #[trigger] all[j] by {
            assert(all[i] == inner[i]);
            if j < inner.len() {
                assert(all[j] == inner[j]);
            }
        }
        assert forall|i: int| 0 <= i < flags.len() implies (#[trigger] flags[i] <==> all.contains(
            i,
        )) by {
            if i < front.len() {
                assert(flags[i] == front[i]);
                if inner.contains(i) {
                    let k = choose|k: int| 0 <= k < inner.len() && inner[k] == i;
                    assert(all[k] == i);
                }
                if all.contains(i) {
                    let k = choose|k: int| 0 <= k < all.len() && all[k] == i;
                    assert(k < inner.len());
                    assert(inner[k] == i);
                }
            } else {
                if flags[i] {
                    assert(all[all.len() - 1] == i);
                }
                if all.contains(i) && !flags[i] {
                    let k = choose|k: int| 0 <= k < all.len() && all[k] == i;
                    assert(inner[k] == i);
                }
            }
        }
    }
}

/// A note matches a search: its text holds the keyword in whatever case, or the
/// regular expression matches in it.
pub open spec fn is_match(searchable: Seq<char>, query: QueryView) -> bool {
    if query.regex {
        trusted::regex_match(query.q, true, 1000000, 1000000, searchable)
    } else {
        text::contains(trusted::lowercase(searchable), trusted::lowercase(query.q))
    }
}

/// A search finds every note that matches and no other, each once and in order. A
/// keyword is looked for as it stands, whatever it would mean as an expression.
pub proof fn law_search_finds_exactly_the_matches(texts: Seq<Seq<char>>, query: QueryView)
    ensures
        in_range(found(texts, query), texts.len()),
        forall|i: int, j: int|
            0 <= i < j < found(texts, query).len() ==> #[trigger] found(texts, query)[i]
                < #[trigger] found(texts, query)[j],
        forall|i: int|
            0 <= i < texts.len() ==> (is_match(#[trigger] texts[i], query) <==> found(
                texts,
                query,
            ).contains(i)),
{
    let flags = if query.regex {
        regex_flags(texts, query.q)
    } else {
        keyword_flags(texts, query.q)
    };
    lemma_true_places(flags);
    assert forall|i: int| 0 <= i < texts.len() implies (is_match(#[trigger] texts[i], query)
        <==> found(texts, query).contains(i)) by {
        assert(flags[i] == is_match(texts[i], query));
    }
}

/// The pages of the feed follow each other: each shows twenty notes, the next one
/// begins where it ends, and the last one has no next.
pub proof fn law_feed_pages_follow_each_other(
    snapshot: Seq<char>,
    items: Seq<Seq<char>>,
    k: int,
)
    requires
        0 <= k < feed_pages(snapshot, items).len(),
    ensures
        feed_pages(snapshot, items)[k] == page_json(
            snapshot,
            (20 * k) as nat,
            items.len(),
            text::concat(shown(items, (20 * k) as nat, 20)),
        ),
        page_bounds(items.len(), (20 * k) as nat, 20).2 == if k + 1 < feed_pages(
            snapshot,
            items,
        ).len() {
            Some(20 * (k + 1))
        } else {
            None
        },
{
}

/// Notes as HTML begin and end with a tag.
proof fn lemma_notes_are_elements(notes: Seq<JsonView>, emojis: JsonView, n: int)
    requires
        0 <= n <= notes.len(),
    ensures
        ({
            let html = text::concat(notes_html(notes, emojis).take(n));
            n > 0 ==> html.len() > 0 && html[0] == '<' && html.last() == '>'
        }),
    decreases n,
{
    let all = notes_html(notes, emojis);
    if n > 0 {
        lemma_notes_are_elements(notes, emojis, n - 1);
        reveal_strlit("<article class=\"feed-item\" id=\"");
        reveal_strlit("</article>");
        assert(all.take(n).drop_last() == all.take(n - 1));
        let last = all[n - 1];
        assert(last[0] == '<' && last.last() == '>');
        let front = text::concat(all.take(n - 1));
        assert(text::concat(all.take(n)) == front + last);
        if n == 1 {
            assert(all.take(0) == Seq::<Seq<char>>::empty());
            assert(front.len() == 0);
        }
    }
}

/// The newest notes stand in the page as they are, whatever they hold: the number
/// of pages and the snapshot are put in before them, so that nothing in them is
/// taken for a mark. The mark of the notes must still be there after that; and
/// where there is no second page, the notes must not hold the mark of the status.
pub proof fn law_notes_stand_in_the_page_literally(
    template: Seq<char>,
    snapshot: Seq<char>,
    notes: Seq<JsonView>,
    emojis: JsonView,
)
    requires
        text::contains(titled_html(template, snapshot, notes.len()), "__FEED_ITEMS__"@),
        page_count(notes.len()) > 1 || !text::contains(
            text::concat(shown(notes_html(notes, emojis), 0, 20)),
            "id=\"feed-status\""@,
        ),
    ensures
        text::contains(
            home_html(template, snapshot, notes_html(notes, emojis)),
            text::concat(shown(notes_html(notes, emojis), 0, 20)),
        ),
{
    let items = notes_html(notes, emojis);
    let newest = text::concat(shown(items, 0, 20));
    let titled = titled_html(template, snapshot, items.len());
    let status = "id=\"feed-status\""@;
    let done = "data-complete=\"true\" id=\"feed-status\""@;
    reveal_strlit("__FEED_ITEMS__");
    reveal_strlit("id=\"feed-status\"");
    let (front, rest) = text::lemma_replace_found(titled, "__FEED_ITEMS__"@, newest);
    if page_count(items.len()) > 1 {
        text::lemma_contains_between(front, newest, rest);
    } else {
        let n = min(20, items.len() as int);
        assert(shown(items, 0, 20) == items.take(n));
        lemma_notes_are_elements(notes, emojis, n);
        assert(!status.contains('<') && !status.contains('>'));
        if n == 0 {
            assert(newest == Seq::<char>::empty());
            let page = home_html(template, snapshot, items);
            assert(page.skip(0).take(0) == newest);
            text::lemma_contains_at(page, newest, 0);
        } else {
            text::lemma_replace_concat(front + newest, rest, status, done);
            text::lemma_replace_concat(front, newest, status, done);
            text::lemma_replace_nothing(newest, status, done);
            text::lemma_contains_between(
                text::replace(front, status, done),
                newest,
                text::replace(rest, status, done),
            );
        }
    }
}

/// A keyword finds the same notes in whatever case it is written.
pub proof fn law_keywords_ignore_case(texts: Seq<Seq<char>>, a: QueryView, b: QueryView)
    requires
        !a.regex,
        !b.regex,
        trusted::lowercase(a.q) == trusted::lowercase(b.q),
    ensures
        found(texts, a) == found(texts, b),
{
    assert(keyword_flags(texts, a.q) =~= keyword_flags(texts, b.q));
}

/// The notes as Markdown, followed from the first page by the links to the next one:
/// there are as many pages as the notes fill, and at least one; every page but the
/// last ends with a link that carries the offset of the next one and the same
/// limit; the last one says that it is the last; and the notes that they show, one
/// after another, are all notes.
pub proof fn law_markdown_pages_show_every_note(sections: Seq<Seq<char>>, limit: nat)
    requires
        limit > 0,
    ensures
        ({
            let offsets = followed_offsets(sections.len(), 0, limit);
            &&& offsets.len() == pages_needed(sections.len(), limit)
            &&& shown_at(sections, offsets, limit) == sections
            &&& forall|k: int|
                #![trigger offsets[k]]
                0 <= k < offsets.len() ==> markdown_page(sections, offsets[k], limit)
                    == "# Zexi's Notes\n\n"@ + LLM_GUIDE@ + text::concat(
                    shown(sections, offsets[k], limit),
                ) + if k + 1 < offsets.len() {
                    "[下一页](https://zexi.me/llms.txt?"@ + ("offset="@ + number::decimal(
                        offsets[k + 1],
                    ) + "&limit="@ + number::decimal(limit)) + ")\n"@
                } else {
                    "已到最后一页。\n"@
                }
        }),
{
    let offsets = followed_offsets(sections.len(), 0, limit);
    law_pages_are_counted(sections, limit);
    assert forall|k: int|
        #![trigger offsets[k]]
        0 <= k < offsets.len() implies markdown_page(sections, offsets[k], limit)
        == "# Zexi's Notes\n\n"@ + LLM_GUIDE@ + text::concat(shown(sections, offsets[k], limit)) + if k
        + 1 < offsets.len() {
        "[下一页](https://zexi.me/llms.txt?"@ + ("offset="@ + number::decimal(offsets[k + 1])
            + "&limit="@ + number::decimal(limit)) + ")\n"@
    } else {
        "已到最后一页。\n"@
    } by {
        if k + 1 < offsets.len() {
            assert(offsets[k + 1] == (k + 1) * limit);
            query::law_page_links_read_as_their_numbers(offsets[k + 1], limit);
        }
    }
}

/// Keys that begin with letters in order are in order.
proof fn lemma_less_by_first(a: Seq<char>, b: Seq<char>)
    requires
        a.len() > 0,
        b.len() > 0,
        a[0] < b[0],
    ensures
        text::less(a, b),
{
}

/// Members whose keys begin with letters in order are in order.
proof fn lemma_ordered_by_first(members: Seq<MemberView>)
    requires
        forall|i: int| 0 <= i < members.len() ==> (#[trigger] members[i]).key.len() > 0,
        forall|i: int, j: int|
            0 <= i < j < members.len() ==> (#[trigger] members[i]).key[0] < (
            #[trigger] members[j]).key[0],
    ensures
        json::ordered(members),
{
    assert forall|i: int, j: int| 0 <= i < j < members.len() implies text::less(
        (#[trigger] members[i]).key,
        (#[trigger] members[j]).key,
    ) by {
        lemma_less_by_first(members[i].key, members[j].key);
    }
}

/// What is written as JSON, pages of the feed and pages of a search, is well-formed.
pub proof fn law_written_json_is_well_formed(
    snapshot: Seq<char>,
    offset: nat,
    total: nat,
    html: Seq<char>,
    cache: CacheView,
    query: QueryView,
    matches: Seq<int>,
)
    ensures
        JsonView::Object(page_members(snapshot, offset, total, html)).well_formed(),
        JsonView::Object(search_members(cache, query, matches)).well_formed(),
{
    reveal_strlit("html");
    reveal_strlit("limit");
    reveal_strlit("nextOffset");
    reveal_strlit("offset");
    reveal_strlit("query");
    reveal_strlit("regex");
    reveal_strlit("snapshotId");
    reveal_strlit("total");
    assert("html"@[0] == 'h' && "limit"@[0] == 'l' && "nextOffset"@[0] == 'n' && "offset"@[0] == 'o'
        && "query"@[0] == 'q' && "regex"@[0] == 'r' && "snapshotId"@[0] == 's' && "total"@[0]
        == 't');
    let page = page_members(snapshot, offset, total, html);
    let search = search_members(cache, query, matches);
    lemma_ordered_by_first(page);
    lemma_ordered_by_first(search);
    assert forall|i: int| 0 <= i < page.len() implies (#[trigger] page[i]).value.well_formed() by {}
    assert forall|i: int| 0 <= i < search.len() implies (
    #[trigger] search[i]).value.well_formed() by {}
}

} // verus!
