//! The snapshots that are kept in memory, and the requests that they answer.
use std::sync::Arc;

use vstd::prelude::*;
use vstd::slice::slice_subrange;
use vstd::string::*;

use crate::cache;
use crate::cache::{Cache, CacheView};
use crate::http;
use crate::http::{plain, with_cors, Body, BodyView, Method, Response, ResponseView};
use crate::json::Json;
use crate::note;
use crate::number;
use crate::number::parse_number;
use crate::query;
use crate::query::{page_of_pairs, pairs_of, QueryView, SearchQuery};
use crate::text;
use crate::text::{
    has_prefix, has_suffix, same_text, split_text, to_chars, to_text, without_prefixes,
};
use crate::trusted;

verus! {

/// The current snapshot, and the one before it for readers who are in the middle
/// of it.
pub struct Store {
    pub current: Option<Arc<Cache>>,
    pub previous: Option<Arc<Cache>>,
}

/// The snapshots in memory as mathematical values.
pub struct StoreView {
    pub current: Option<CacheView>,
    pub previous: Option<CacheView>,
}

/// What an optional snapshot holds.
pub open spec fn optional_view(cache: Option<Arc<Cache>>) -> Option<CacheView> {
    match cache {
        Some(cache) => Some((*cache)@),
        None => None,
    }
}

impl View for Store {
    type V = StoreView;

    open spec fn view(&self) -> StoreView {
        StoreView {
            current: optional_view(self.current),
            previous: optional_view(self.previous),
        }
    }
}

impl StoreView {
    /// The snapshots are well-formed.
    pub open spec fn well_formed(self) -> bool {
        &&& self.current is Some ==> self.current->0.well_formed()
        &&& self.previous is Some ==> self.previous->0.well_formed()
    }

    /// The snapshots after a new one has come: it is the current one, and where
    /// it is another than the one before, that is kept.
    pub open spec fn installed(self, next: CacheView) -> StoreView {
        StoreView {
            current: Some(next),
            previous: if self.current is Some && self.current->0.snapshot == next.snapshot {
                self.previous
            } else {
                self.current
            },
        }
    }
}

impl Default for Store {
    fn default() -> (r: Store)
        ensures
            r@ == (StoreView { current: None, previous: None }),
    {
        Store { current: None, previous: None }
    }
}

/// A store without snapshots.
pub fn empty_store() -> (r: Store)
    ensures
        r@ == (StoreView { current: None, previous: None }),
        r@.well_formed(),
{
    Store { current: None, previous: None }
}

impl Store {
    /// Makes a snapshot the current one.
    pub fn install(&mut self, next: Cache)
        ensures
            final(self)@ == old(self)@.installed(next@),
            old(self)@.well_formed() && next@.well_formed() ==> final(self)@.well_formed(),
    {
        let same = match &self.current {
            Some(current) => current.snapshot == next.snapshot,
            None => false,
        };
        if !same {
            self.previous = self.current.take();
        }
        self.current = Some(Arc::new(next));
    }
}

/// Builds the snapshot of a feed and makes it the current one. Where the feed is
/// refused, the snapshots stay as they are.
pub fn refresh(store: &mut Store, data: &Json, template: &str, emojis: &Json) -> (r: Result<
    (),
    String,
>)
    requires
        cache::buildable(data@, template@),
    ensures
        match cache::built(data@, template@, emojis@) {
            Ok(next) => r is Ok && final(store)@ == old(store)@.installed(next),
            Err(message) => r is Err && r->Err_0@ == message && final(store)@ == old(store)@,
        },
        old(store)@.well_formed() ==> final(store)@.well_formed(),
{
    match Cache::build(data, template, emojis) {
        Ok(next) => {
            store.install(next);
            Ok(())
        },
        Err(message) => Err(message),
    }
}

/// Builds the snapshot of a feed and makes it the current one, where the dates of
/// its notes can be shown. Otherwise the snapshots stay as they are.
pub fn try_refresh(store: &mut Store, data: &Json, template: &str, emojis: &Json) -> (r: Option<
    Result<(), String>,
>)
    ensures
        r is None <==> !cache::buildable(data@, template@),
        r is None ==> final(store)@ == old(store)@,
        r is Some ==> match cache::built(data@, template@, emojis@) {
            Ok(next) => r->0 is Ok && final(store)@ == old(store)@.installed(next),
            Err(message) => r->0 is Err && r->0->Err_0@ == message && final(store)@ == old(
                store,
            )@,
        },
        old(store)@.well_formed() ==> final(store)@.well_formed(),
{
    if cache::is_buildable(data, template) {
        Some(refresh(store, data, template, emojis))
    } else {
        None
    }
}

/// A page of the feed, which readers always check again. A request for its head
/// gets no body.
pub open spec fn note_response(
    method: Method,
    content_type: Seq<char>,
    body: Seq<char>,
) -> ResponseView {
    http::bare(
        200,
        if method == Method::Head {
            BodyView::Empty
        } else {
            BodyView::Text(body)
        },
    ).with("content-type"@, content_type).with("cache-control"@, "no-cache"@).with_cors()
}

fn note_reply(method: Method, content_type: &str, body: String) -> (r: Response)
    ensures
        r@ == note_response(method, content_type@, body@),
{
    let content = if method == Method::Head {
        Body::Empty
    } else {
        Body::Text(body)
    };
    let mut response = Response::new(200, content);
    response.insert("content-type", content_type);
    response.insert("cache-control", "no-cache");
    with_cors(response)
}

/// Some pair has a given name.
pub open spec fn has_name(pairs: Seq<(Seq<char>, Seq<char>)>, name: Seq<char>) -> bool {
    query::last_value(pairs, name) is Some
}

/// A request that searches the notes.
pub open spec fn is_search(path: Seq<char>, pairs: Seq<(Seq<char>, Seq<char>)>) -> bool {
    path == "/feed/search.json"@ || (path == "/llms.txt"@ && has_name(pairs, "q"@))
}

/// The snapshot with a given name, if it is in memory.
pub open spec fn named_snapshot(store: StoreView, name: Seq<char>) -> Option<CacheView> {
    if store.current is Some && name == store.current->0.snapshot {
        store.current
    } else if store.previous is Some && name == store.previous->0.snapshot {
        store.previous
    } else {
        None
    }
}

/// The number in the name of a page of the feed; zero where the name is none.
pub open spec fn page_number(name: Seq<char>) -> nat {
    let rest = name.skip("page-"@.len() as int);
    let numeral = rest.take(rest.len() - ".json"@.len());
    if text::starts_with(name, "page-"@) && text::ends_with(rest, ".json"@) {
        match number::parsed_number(numeral, usize::MAX as nat) {
            Some(n) => n,
            None => 0,
        }
    } else {
        0
    }
}

/// The answer to a request for a page of the feed.
pub open spec fn feed_response(store: StoreView, method: Method, path: Seq<char>) -> ResponseView {
    let parts = text::split(text::trim_prefixes(path, "/feed/runtime/"@), '/');
    let n = page_number(parts[1]);
    if parts.len() != 2 {
        http::plain_response(404, "not found"@)
    } else {
        match named_snapshot(store, parts[0]) {
            None => http::plain_response(409, "feed updated; reload"@),
            Some(cache) => if 1 <= n <= cache.pages.len() {
                note_response(method, "application/json; charset=utf-8"@, cache.pages[n - 1])
            } else {
                http::plain_response(404, "not found"@)
            },
        }
    }
}

/// The answer to a request that does not search, given the current snapshot.
pub open spec fn page_response(
    store: StoreView,
    method: Method,
    path: Seq<char>,
    pairs: Seq<(Seq<char>, Seq<char>)>,
) -> ResponseView {
    let current = store.current->0;
    if path == "/"@ || path == "/index.html"@ {
        note_response(method, "text/html; charset=utf-8"@, current.html)
    } else if path == "/llms.txt"@ {
        match query::parsed_page(pairs) {
            Err(message) => http::plain_response(400, message),
            Ok(page) => note_response(
                method,
                "text/markdown; charset=utf-8"@,
                if page == (0nat, 20nat) {
                    current.markdown
                } else {
                    cache::markdown_page(current.sections, page.0, page.1)
                },
            ),
        }
    } else {
        feed_response(store, method, path)
    }
}

/// What a search is answered from: the snapshot that it names, or the current
/// one.
pub open spec fn searched_snapshot(store: StoreView, search: QueryView) -> Option<CacheView> {
    match search.snapshot {
        None => store.current,
        Some(name) => named_snapshot(store, name),
    }
}

/// The type of the answer to a search.
pub open spec fn search_type(path: Seq<char>) -> Seq<char> {
    if path == "/llms.txt"@ {
        "text/markdown; charset=utf-8"@
    } else {
        "application/json; charset=utf-8"@
    }
}

/// The answer to a request. A search for a pattern that is no regular expression is
/// refused, and so is one for an expression that is compiled to more than the
/// limit; `too_large` says whether that is so.
pub open spec fn answer(
    store: StoreView,
    method: Method,
    path: Seq<char>,
    pairs: Seq<(Seq<char>, Seq<char>)>,
    too_large: bool,
) -> ResponseView {
    if store.current is None {
        http::plain_response(503, "notes unavailable"@)
    } else if is_search(path, pairs) {
        match query::parsed_query(pairs) {
            Err(message) => http::plain_response(400, message),
            Ok(search) => match searched_snapshot(store, search) {
                None => http::plain_response(409, "内容已更新，请重新搜索。"@),
                Some(cache) => if search.regex && (too_large || !cache::is_expression(search)) {
                    http::plain_response(400, "正则表达式无效或过于复杂，请修改后重试。"@)
                } else {
                    note_response(
                        method,
                        search_type(path),
                        cache::search_page(
                            cache,
                            search,
                            cache::found(cache.searchable, search),
                            path == "/llms.txt"@,
                        ),
                    )
                },
            },
        }
    } else {
        page_response(store, method, path, pairs)
    }
}

/// A request searches for a regular expression.
pub open spec fn asks_regex(path: Seq<char>, pairs: Seq<(Seq<char>, Seq<char>)>) -> bool {
    is_search(path, pairs) && query::parsed_query(pairs) is Ok && query::parsed_query(
        pairs,
    )->Ok_0.regex
}

impl Store {
    /// The snapshot with a given name, if it is in memory.
    fn find_snapshot(&self, name: &str) -> (r: Option<&Cache>)
        ensures
            match r {
                Some(cache) => named_snapshot(self@, name@) == Some(cache@),
                None => named_snapshot(self@, name@) is None,
            },
    {
        let wanted = name.to_owned();
        if let Some(current) = &self.current {
            if current.snapshot == wanted {
                return Some(&**current);
            }
        }
        if let Some(previous) = &self.previous {
            if previous.snapshot == wanted {
                return Some(&**previous);
            }
        }
        None
    }
}

/// The number in the name of a page of the feed; zero where the name is none.
fn number_of_page(name: &[char]) -> (r: u64)
    ensures
        r as nat == page_number(name@),
        r <= usize::MAX,
{
    let prefix = to_chars("page-");
    let suffix = to_chars(".json");
    if !has_prefix(name, prefix.as_slice()) {
        return 0;
    }
    let rest = slice_subrange(name, prefix.len(), name.len());
    assert(rest@ == name@.skip("page-"@.len() as int));
    if !has_suffix(rest, suffix.as_slice()) {
        return 0;
    }
    let numeral = slice_subrange(rest, 0, rest.len() - suffix.len());
    assert(numeral@ == rest@.take(rest@.len() - ".json"@.len()));
    match parse_number(numeral, usize::MAX as u64) {
        Some(n) => n,
        None => 0,
    }
}

/// The answer to a request for a page of the feed.
fn respond_feed(store: &Store, method: Method, path: &str) -> (r: Response)
    ensures
        r@ == feed_response(store@, method, path@),
{
    let chars = to_chars(path);
    let rest = without_prefixes(chars.as_slice(), to_chars("/feed/runtime/").as_slice());
    let parts = split_text(rest, '/');
    let ghost all = text::split(text::trim_prefixes(path@, "/feed/runtime/"@), '/');
    assert(all == text::char_views(parts@));
    if parts.len() != 2 {
        return plain(404, "not found");
    }
    assert(parts@[0]@ == all[0] && parts@[1]@ == all[1]);
    let cache = match store.find_snapshot(to_text(parts[0].as_slice()).as_str()) {
        Some(cache) => cache,
        None => return plain(409, "feed updated; reload"),
    };
    let n = number_of_page(parts[1].as_slice());
    if n >= 1 && n <= cache.pages.len() as u64 {
        let page = &cache.pages[(n - 1) as usize];
        assert(page@ == cache@.pages[n - 1]);
        note_reply(method, "application/json; charset=utf-8", page.clone())
    } else {
        plain(404, "not found")
    }
}

/// The answer to a request with given pairs in its query.
pub fn respond(
    store: &Store,
    method: Method,
    path: &str,
    pairs: &Vec<(String, String)>,
) -> (r: Response)
    requires
        store@.well_formed(),
    ensures
        r@ == answer(store@, method, path@, trusted::pair_views(pairs@), false) || (asks_regex(
            path@,
            trusted::pair_views(pairs@),
        ) && r@ == answer(store@, method, path@, trusted::pair_views(pairs@), true)),
{
    let current = match &store.current {
        Some(current) => current,
        None => return plain(503, "notes unavailable"),
    };
    let markdown = same_text(path, "/llms.txt");
    if same_text(path, "/feed/search.json") || (markdown && query::find_last(pairs, "q").is_some())
    {
        let search = match SearchQuery::from_pairs(pairs) {
            Ok(search) => search,
            Err(message) => return plain(400, message),
        };
        let cache: &Cache = match &search.snapshot {
            None => &**current,
            Some(name) => match store.find_snapshot(name.as_str()) {
                Some(cache) => cache,
                None => return plain(409, "内容已更新，请重新搜索。"),
            },
        };
        match cache.search_body(&search, markdown) {
            Err(message) => plain(400, message),
            Ok(body) => if markdown {
                note_reply(method, "text/markdown; charset=utf-8", body)
            } else {
                note_reply(method, "application/json; charset=utf-8", body)
            },
        }
    } else if same_text(path, "/") || same_text(path, "/index.html") {
        note_reply(method, "text/html; charset=utf-8", current.html.clone())
    } else if markdown {
        match page_of_pairs(pairs) {
            Err(message) => plain(400, message),
            Ok(page) => {
                let body = if page.0 == 0 && page.1 == 20 {
                    current.markdown.clone()
                } else {
                    current.markdown(page.0, page.1)
                };
                note_reply(method, "text/markdown; charset=utf-8", body)
            },
        }
    } else {
        respond_feed(store, method, path)
    }
}

/// The answer to a request for the notes, from memory alone.
pub fn response(store: &Store, method: Method, path: &str, query: Option<&str>) -> (r: Response)
    requires
        store@.well_formed(),
    ensures
        ({
            let pairs = query::query_pairs(
                match query {
                    Some(s) => Some(s@),
                    None => None,
                },
            );
            r@ == answer(store@, method, path@, pairs, false) || (asks_regex(path@, pairs) && r@
                == answer(store@, method, path@, pairs, true))
        }),
{
    let pairs = pairs_of(query);
    respond(store, method, path, &pairs)
}

/// Without a snapshot every request is answered with the status 503.
pub proof fn law_notes_are_unavailable_without_snapshot(
    store: StoreView,
    method: Method,
    path: Seq<char>,
    pairs: Seq<(Seq<char>, Seq<char>)>,
    too_large: bool,
)
    requires
        store.current is None,
    ensures
        answer(store, method, path, pairs, too_large) == http::plain_response(
            503,
            "notes unavailable"@,
        ),
{
}

/// A new snapshot keeps the one before it within reach of its name; one with the
/// same name takes its place and keeps the older one.
pub proof fn law_install_keeps_one_older_snapshot(store: StoreView, next: CacheView)
    requires
        store.current is Some,
    ensures
        store.installed(next).current == Some(next),
        named_snapshot(store.installed(next), next.snapshot) == Some(next),
        store.current->0.snapshot != next.snapshot ==> named_snapshot(
            store.installed(next),
            store.current->0.snapshot,
        ) == store.current,
        store.current->0.snapshot == next.snapshot ==> store.installed(next).previous
            == store.previous,
{
}

/// Once a snapshot is in place, the page and the notes as Markdown are its own.
pub proof fn law_new_snapshot_is_served(
    store: StoreView,
    next: CacheView,
    method: Method,
    pairs: Seq<(Seq<char>, Seq<char>)>,
    too_large: bool,
)
    requires
        next.well_formed(),
    ensures
        answer(store.installed(next), method, "/"@, pairs, too_large) == note_response(
            method,
            "text/html; charset=utf-8"@,
            next.html,
        ),
        answer(store.installed(next), method, "/index.html"@, pairs, too_large) == note_response(
            method,
            "text/html; charset=utf-8"@,
            next.html,
        ),
        pairs.len() == 0 ==> answer(store.installed(next), method, "/llms.txt"@, pairs, too_large)
            == note_response(
            method,
            "text/markdown; charset=utf-8"@,
            cache::markdown_page(next.sections, 0, 20),
        ),
{
    reveal_strlit("/llms.txt");
    reveal_strlit("/feed/search.json");
    reveal_strlit("/index.html");
    reveal_strlit("/");
    assert("/llms.txt"@.len() == 9 && "/feed/search.json"@.len() == 17 && "/index.html"@.len()
        == 11 && "/"@.len() == 1);
}

/// A search that cannot be read is refused with the status 400, and so is one for
/// what is no regular expression or for one that is too large; one in a snapshot
/// that is no longer in memory is refused with the status 409.
pub proof fn law_invalid_searches_are_refused(
    store: StoreView,
    method: Method,
    path: Seq<char>,
    pairs: Seq<(Seq<char>, Seq<char>)>,
    too_large: bool,
)
    requires
        store.current is Some,
        is_search(path, pairs),
    ensures
        answer(store, method, path, pairs, too_large).status == match query::parsed_query(pairs) {
            Err(_) => 400u16,
            Ok(search) => if searched_snapshot(store, search) is None {
                409u16
            } else if search.regex && (too_large || !cache::is_expression(search)) {
                400u16
            } else {
                200u16
            },
        },
{
}

/// Readers in the middle of a snapshot go on undisturbed when the next one comes:
/// pages of the feed and searches that name it are answered as before.
pub proof fn law_old_snapshot_is_served_after_refresh(
    store: StoreView,
    next: CacheView,
    method: Method,
    path: Seq<char>,
    pairs: Seq<(Seq<char>, Seq<char>)>,
    too_large: bool,
)
    requires
        store.current is Some,
        store.current->0.snapshot != next.snapshot,
        names_snapshot(path, pairs, store.current->0.snapshot),
    ensures
        answer(store.installed(next), method, path, pairs, too_large) == answer(
            store,
            method,
            path,
            pairs,
            too_large,
        ),
{
}

/// A request for a page of the feed, or for a search, in the snapshot with a given
/// name.
pub open spec fn names_snapshot(
    path: Seq<char>,
    pairs: Seq<(Seq<char>, Seq<char>)>,
    name: Seq<char>,
) -> bool {
    let parts = text::split(text::trim_prefixes(path, "/feed/runtime/"@), '/');
    if is_search(path, pairs) {
        query::parsed_query(pairs) is Ok && query::parsed_query(pairs)->Ok_0.snapshot == Some(name)
    } else {
        path != "/"@ && path != "/index.html"@ && path != "/llms.txt"@ && parts.len() == 2
            && parts[0] == name
    }
}

/// The path of a page of the feed.
pub open spec fn page_path(snapshot: Seq<char>, n: nat) -> Seq<char> {
    "/feed/runtime/"@ + snapshot + seq!['/'] + page_name(n)
}

/// The name of a page of the feed.
pub open spec fn page_name(n: nat) -> Seq<char> {
    "page-"@ + number::decimal(n) + ".json"@
}

/// The name of a page holds its number, and no slash.
proof fn lemma_page_name(n: nat)
    requires
        n <= usize::MAX,
    ensures
        page_number(page_name(n)) == n,
        forall|i: int| 0 <= i < page_name(n).len() ==> #[trigger] page_name(n)[i] != '/',
{
    reveal_strlit("page-");
    reveal_strlit(".json");
    let numeral = number::decimal(n);
    let name = page_name(n);
    number::lemma_decimal_round_trip(n);
    assert forall|j: int| 0 <= j < name.len() implies #[trigger] name[j] != '/' by {
        if 5 <= j < 5 + numeral.len() {
            assert(name[j] == numeral[j - 5]);
        }
    }
    assert(name.take(5) == "page-"@);
    let tail = name.skip(5);
    assert(tail == numeral + ".json"@);
    assert(tail.skip(tail.len() - 5) == ".json"@);
    assert(tail.take(tail.len() - 5) == numeral);
}

/// A text without slashes is one part.
proof fn lemma_split_one(s: Seq<char>)
    requires
        forall|i: int| 0 <= i < s.len() ==> #[trigger] s[i] != '/',
    ensures
        text::split(s, '/') == seq![s],
{
    text::lemma_index_of_at(s, '/', s.len() as int);
}

/// The parts of the path of a page of the feed.
proof fn lemma_page_path(snapshot: Seq<char>, n: nat)
    requires
        cache::is_snapshot_name(snapshot),
        n <= usize::MAX,
    ensures
        text::split(text::trim_prefixes(page_path(snapshot, n), "/feed/runtime/"@), '/') == seq![
            snapshot,
            page_name(n),
        ],
{
    reveal_strlit("/feed/runtime/");
    let prefix = "/feed/runtime/"@;
    let path = page_path(snapshot, n);
    let name = page_name(n);
    let rest = snapshot + seq!['/'] + name;
    assert(path =~= prefix + rest);
    assert(path.take(prefix.len() as int) =~= prefix);
    assert(path.skip(prefix.len() as int) =~= rest);
    assert(rest[0] == snapshot[0]);
    assert(note::is_hex(snapshot[0]));
    if text::starts_with(rest, prefix) {
        assert(rest.take(prefix.len() as int)[0] == prefix[0]);
    }
    assert(text::trim_prefixes(rest, prefix) == rest);
    assert(text::trim_prefixes(path, prefix) == rest);
    assert forall|j: int| 0 <= j < 16 implies #[trigger] rest[j] != '/' by {
        assert(rest[j] == snapshot[j]);
        assert(note::is_hex(snapshot[j]));
    }
    text::lemma_index_of_at(rest, '/', 16);
    assert(rest.take(16) =~= snapshot);
    assert(rest.skip(17) =~= name);
    lemma_page_name(n);
    lemma_split_one(name);
    assert(seq![snapshot] + seq![name] =~= seq![snapshot, name]);
}

/// Every page of a snapshot in memory is found under its path.
pub proof fn law_pages_are_found_under_their_paths(
    store: StoreView,
    snapshot: CacheView,
    n: nat,
    method: Method,
    pairs: Seq<(Seq<char>, Seq<char>)>,
    too_large: bool,
)
    requires
        store.well_formed(),
        store.current is Some,
        named_snapshot(store, snapshot.snapshot) == Some(snapshot),
        1 <= n <= snapshot.pages.len(),
        n <= usize::MAX,
    ensures
        answer(store, method, page_path(snapshot.snapshot, n), pairs, too_large) == note_response(
            method,
            "application/json; charset=utf-8"@,
            snapshot.pages[n - 1],
        ),
{
    let path = page_path(snapshot.snapshot, n);
    lemma_page_path(snapshot.snapshot, n);
    lemma_page_name(n);
    reveal_strlit("/feed/runtime/");
    reveal_strlit("/feed/search.json");
    reveal_strlit("/llms.txt");
    reveal_strlit("/index.html");
    reveal_strlit("/");
    assert(path[6] == 'r' && path[1] == 'f');
    assert(path.len() > 16);
}

/// Without a search, `/llms.txt` shows the page of the notes that is asked for;
/// where nothing is said, the twenty newest.
pub proof fn law_markdown_shows_the_page_asked_for(
    store: StoreView,
    method: Method,
    pairs: Seq<(Seq<char>, Seq<char>)>,
    too_large: bool,
)
    requires
        store.well_formed(),
        store.current is Some,
        !has_name(pairs, "q"@),
        query::parsed_page(pairs) is Ok,
    ensures
        answer(store, method, "/llms.txt"@, pairs, too_large) == note_response(
            method,
            "text/markdown; charset=utf-8"@,
            cache::markdown_page(
                store.current->0.sections,
                query::parsed_page(pairs)->Ok_0.0,
                query::parsed_page(pairs)->Ok_0.1,
            ),
        ),
        pairs.len() == 0 ==> query::parsed_page(pairs)->Ok_0 == (0nat, 20nat),
{
    reveal_strlit("/llms.txt");
    reveal_strlit("/feed/search.json");
    reveal_strlit("/index.html");
    reveal_strlit("/");
    assert("/llms.txt"@.len() == 9 && "/feed/search.json"@.len() == 17 && "/index.html"@.len()
        == 11 && "/"@.len() == 1);
}

/// The link to another page of the notes leads to it.
pub proof fn law_markdown_link_leads_to_its_page(
    store: StoreView,
    method: Method,
    offset: nat,
    limit: nat,
    too_large: bool,
)
    requires
        store.well_formed(),
        store.current is Some,
        offset <= usize::MAX,
        1 <= limit <= 100,
    ensures
        answer(store, method, "/llms.txt"@, query::page_pairs(offset, limit), too_large)
            == note_response(
            method,
            "text/markdown; charset=utf-8"@,
            cache::markdown_page(store.current->0.sections, offset, limit),
        ),
{
    query::law_page_links_lead_to_their_pages(offset, limit);
    law_markdown_shows_the_page_asked_for(
        store,
        method,
        query::page_pairs(offset, limit),
        too_large,
    );
}

/// The link to the next page of a search leads to it: the same search in the same
/// snapshot, from where the page ends.
pub proof fn law_search_link_leads_to_the_next_page(
    store: StoreView,
    method: Method,
    pairs: Seq<(Seq<char>, Seq<char>)>,
    next: nat,
)
    requires
        store.current is Some,
        query::parsed_query(pairs) is Ok,
        searched_snapshot(store, query::parsed_query(pairs)->Ok_0) is Some,
        cache::is_expression(query::parsed_query(pairs)->Ok_0),
        next <= usize::MAX,
    ensures
        ({
            let search = query::parsed_query(pairs)->Ok_0;
            let snapshot = searched_snapshot(store, search)->0;
            let found = cache::found(snapshot.searchable, search);
            answer(
                store,
                method,
                "/llms.txt"@,
                search.pairs(next, snapshot.snapshot),
                false,
            ) == note_response(
                method,
                "text/markdown; charset=utf-8"@,
                cache::search_md(
                    snapshot,
                    QueryView { offset: next, snapshot: Some(snapshot.snapshot), ..search },
                    found,
                ),
            )
        }),
{
    let search = query::parsed_query(pairs)->Ok_0;
    let snapshot = searched_snapshot(store, search)->0;
    let link = search.pairs(next, snapshot.snapshot);
    query::law_parsed_query_is_well_formed(pairs);
    query::law_next_page_preserves_search(search, next, snapshot.snapshot);
    reveal_strlit("q");
    reveal_strlit("regex");
    reveal_strlit("offset");
    reveal_strlit("limit");
    reveal_strlit("snapshot");
    assert("regex"@[0] == 'r' && "limit"@[0] == 'l' && "offset"@[0] == 'o' && "snapshot"@[0] == 's'
        && "q"@[0] == 'q');
    reveal_with_fuel(query::last_value, 6);
    assert(link.drop_last().drop_last().drop_last().drop_last().last() == link[0]);
    assert(has_name(link, "q"@));
    assert(searched_snapshot(
        store,
        QueryView { offset: next, snapshot: Some(snapshot.snapshot), ..search },
    ) == Some(snapshot));
}

/// A request for the head of an answer gets its status and its header fields,
/// and of what it would show nothing.
pub proof fn law_head_is_get_without_body(
    store: StoreView,
    path: Seq<char>,
    pairs: Seq<(Seq<char>, Seq<char>)>,
    too_large: bool,
)
    ensures
        answer(store, Method::Head, path, pairs, too_large).status == answer(
            store,
            Method::Get,
            path,
            pairs,
            too_large,
        ).status,
        answer(store, Method::Head, path, pairs, too_large).headers == answer(
            store,
            Method::Get,
            path,
            pairs,
            too_large,
        ).headers,
        answer(store, Method::Head, path, pairs, too_large).status == 200 ==> answer(
            store,
            Method::Head,
            path,
            pairs,
            too_large,
        ).body is Empty,
{
}

/// Every answer from the notes may be read by any site.
pub proof fn law_every_answer_is_open(
    store: StoreView,
    method: Method,
    path: Seq<char>,
    pairs: Seq<(Seq<char>, Seq<char>)>,
    too_large: bool,
)
    ensures
        http::is_open(answer(store, method, path, pairs, too_large)),
{
    assert forall|response: ResponseView| http::is_open(#[trigger] response.with_cors()) by {
        http::lemma_cors_is_open(response);
    }
}

/// Notes are answered with the status 200 in their type, are always checked again, and
/// may be read by any site. A request for the head gets no body.
pub proof fn law_notes_are_answered_in_their_type(
    method: Method,
    content_type: Seq<char>,
    body: Seq<char>,
)
    ensures
        ({
            let response = note_response(method, content_type, body);
            &&& response.status == 200
            &&& method == Method::Head ==> response.body is Empty
            &&& method != Method::Head ==> response.body == BodyView::Text(body)
            &&& http::has_field(response, "content-type"@, content_type)
            &&& http::has_field(response, "cache-control"@, "no-cache"@)
            &&& forall|name: Seq<char>| #[trigger]
                response.headers.contains_key(name) ==> http::is_cors_name(name) || name
                    == "content-type"@ || name == "cache-control"@
        }),
{
    http::lemma_field_names();
    let inner = http::bare(
        200,
        if method == Method::Head {
            BodyView::Empty
        } else {
            BodyView::Text(body)
        },
    ).with("content-type"@, content_type).with("cache-control"@, "no-cache"@);
    http::law_opening_keeps_the_response(inner);
    let response = note_response(method, content_type, body);
    assert(response == inner.with_cors());
    assert(response.headers.contains_key("content-type"@));
    assert(response.headers.contains_key("cache-control"@));
}

/// A snapshot is found by its name while it is the current one or the one before it,
/// and not at all otherwise.
pub proof fn law_snapshots_are_found_by_name(store: StoreView, name: Seq<char>)
    ensures
        store.current is Some && store.current->0.snapshot == name ==> named_snapshot(store, name)
            == store.current,
        (store.current is None || store.current->0.snapshot != name) && store.previous is Some
            && store.previous->0.snapshot == name ==> named_snapshot(store, name) == store.previous,
        (store.current is None || store.current->0.snapshot != name) && (store.previous is None
            || store.previous->0.snapshot != name) ==> named_snapshot(store, name) is None,
{
}

/// A search is answered with the notes that it finds in the snapshot that it names, or
/// in the current one where it names none: under `/llms.txt` as Markdown, and under
/// `/feed/search.json` as JSON.
pub proof fn law_searches_are_answered(
    store: StoreView,
    method: Method,
    path: Seq<char>,
    pairs: Seq<(Seq<char>, Seq<char>)>,
    too_large: bool,
    snapshot: CacheView,
)
    requires
        store.current is Some,
        path == "/feed/search.json"@ || (path == "/llms.txt"@ && query::last_value(pairs, "q"@)
            is Some),
        query::parsed_query(pairs) is Ok,
        match query::parsed_query(pairs)->Ok_0.snapshot {
            Some(name) => named_snapshot(store, name) == Some(snapshot),
            None => snapshot == store.current->0,
        },
        query::parsed_query(pairs)->Ok_0.regex ==> !too_large && trusted::regex_valid(
            query::parsed_query(pairs)->Ok_0.q,
            true,
        ),
    ensures
        ({
            let search = query::parsed_query(pairs)->Ok_0;
            let found = cache::found(snapshot.searchable, search);
            &&& path == "/llms.txt"@ ==> answer(store, method, path, pairs, too_large)
                == note_response(
                method,
                "text/markdown; charset=utf-8"@,
                cache::search_page(snapshot, search, found, true),
            )
            &&& path == "/feed/search.json"@ ==> answer(store, method, path, pairs, too_large)
                == note_response(
                method,
                "application/json; charset=utf-8"@,
                cache::search_page(snapshot, search, found, false),
            )
        }),
{
    reveal_strlit("/llms.txt");
    reveal_strlit("/feed/search.json");
    assert("/llms.txt"@.len() == 9 && "/feed/search.json"@.len() == 17);
}

/// A search that is refused says why.
pub proof fn law_refused_searches_say_why(
    store: StoreView,
    method: Method,
    path: Seq<char>,
    pairs: Seq<(Seq<char>, Seq<char>)>,
    too_large: bool,
)
    requires
        store.current is Some,
        path == "/feed/search.json"@ || (path == "/llms.txt"@ && query::last_value(pairs, "q"@)
            is Some),
    ensures
        ({
            let answered = answer(store, method, path, pairs, too_large);
            match query::parsed_query(pairs) {
                Err(message) => answered == http::plain_response(400, message),
                Ok(search) => {
                    let known = search.snapshot is None || named_snapshot(
                        store,
                        search.snapshot->0,
                    ) is Some;
                    &&& !known ==> answered == http::plain_response(
                        409,
                        "内容已更新，请重新搜索。"@,
                    )
                    &&& known && search.regex && (too_large || !trusted::regex_valid(search.q, true))
                        ==> answered == http::plain_response(
                        400,
                        "正则表达式无效或过于复杂，请修改后重试。"@,
                    )
                },
            }
        }),
{
}

/// A page of the notes that cannot be read is refused, and says why.
pub proof fn law_pages_that_cannot_be_read_are_refused(
    store: StoreView,
    method: Method,
    pairs: Seq<(Seq<char>, Seq<char>)>,
    too_large: bool,
)
    requires
        store.current is Some,
        query::last_value(pairs, "q"@) is None,
        query::parsed_page(pairs) is Err,
    ensures
        answer(store, method, "/llms.txt"@, pairs, too_large) == http::plain_response(
            400,
            query::parsed_page(pairs)->Err_0,
        ),
{
    reveal_strlit("/llms.txt");
    reveal_strlit("/feed/search.json");
    reveal_strlit("/index.html");
    reveal_strlit("/");
    assert("/llms.txt"@.len() == 9 && "/feed/search.json"@.len() == 17 && "/index.html"@.len()
        == 11 && "/"@.len() == 1);
}

/// The number of a page stands in its name between `page-` and `.json`, and names of
/// another form have none.
pub proof fn law_pages_are_numbered_by_their_names(numeral: Seq<char>, name: Seq<char>)
    ensures
        page_number("page-"@ + numeral + ".json"@) == match number::parsed_number(
            numeral,
            usize::MAX as nat,
        ) {
            Some(n) => n,
            None => 0,
        },
        page_number(name) > 0 ==> text::starts_with(name, "page-"@) && text::ends_with(
            name,
            ".json"@,
        ),
{
    reveal_strlit("page-");
    reveal_strlit(".json");
    let whole = "page-"@ + numeral + ".json"@;
    assert(whole.take(5) =~= "page-"@);
    let tail = whole.skip(5);
    assert(tail =~= numeral + ".json"@);
    assert(tail.skip(tail.len() - 5) =~= ".json"@);
    assert(tail.take(tail.len() - 5) =~= numeral);
    if page_number(name) > 0 {
        let rest = name.skip(5);
        assert(name.skip(name.len() - 5) =~= rest.skip(rest.len() - 5));
    }
}

/// A page of a snapshot that is no longer in memory is refused with the status 409, so
/// that its reader loads the feed anew; a page that a snapshot in memory does not
/// have is not found, and one that it has is answered.
pub proof fn law_feed_pages_are_answered(
    store: StoreView,
    method: Method,
    snapshot: Seq<char>,
    name: Seq<char>,
    pairs: Seq<(Seq<char>, Seq<char>)>,
    too_large: bool,
)
    requires
        store.current is Some,
        !snapshot.contains('/'),
        !name.contains('/'),
    ensures
        ({
            let path = "/feed/runtime/"@ + snapshot + seq!['/'] + name;
            let answered = answer(store, method, path, pairs, too_large);
            match named_snapshot(store, snapshot) {
                None => answered == http::plain_response(409, "feed updated; reload"@),
                Some(cache) => if 1 <= page_number(name) <= cache.pages.len() {
                    answered == note_response(
                        method,
                        "application/json; charset=utf-8"@,
                        cache.pages[page_number(name) - 1],
                    )
                } else {
                    answered == http::plain_response(404, "not found"@)
                },
            }
        }),
{
    let prefix = "/feed/runtime/"@;
    let path = prefix + snapshot + seq!['/'] + name;
    let rest = snapshot + seq!['/'] + name;
    reveal_strlit("/feed/runtime/");
    reveal_strlit("/feed/search.json");
    reveal_strlit("/llms.txt");
    reveal_strlit("/index.html");
    reveal_strlit("/");
    assert(path =~= prefix + rest);
    text::law_prefixes_go_from_the_front(rest, prefix);
    if text::starts_with(rest, prefix) {
        let front = rest.take(14);
        assert(front[0] == '/' && front[5] == '/');
        if snapshot.len() > 0 {
            assert(rest[0] == snapshot[0]);
            assert(snapshot.contains(snapshot[0]));
        } else {
            assert(rest[5] == name[4]);
            assert(name.contains(name[4]));
        }
    }
    assert(text::trim_prefixes(path, prefix) == rest);
    text::lemma_split_push(snapshot, '/', name);
    assert forall|j: int| 0 <= j < snapshot.len() implies snapshot[j] != '/' by {
        assert(snapshot.contains(snapshot[j]));
    }
    lemma_split_one(snapshot);
    assert(seq![snapshot].push(name) =~= seq![snapshot, name]);
    assert(path[6] == 'r' && path[1] == 'f');
    assert(path.len() >= 15);
}

/// A path below that of the pages which does not have two segments names none of them.
pub proof fn law_other_feed_paths_are_not_found(
    store: StoreView,
    method: Method,
    rest: Seq<char>,
    pairs: Seq<(Seq<char>, Seq<char>)>,
    too_large: bool,
)
    requires
        store.current is Some,
        !text::starts_with(rest, "/feed/runtime/"@),
        text::split(rest, '/').len() != 2,
    ensures
        answer(store, method, "/feed/runtime/"@ + rest, pairs, too_large) == http::plain_response(
            404,
            "not found"@,
        ),
{
    let prefix = "/feed/runtime/"@;
    let path = prefix + rest;
    reveal_strlit("/feed/runtime/");
    reveal_strlit("/feed/search.json");
    reveal_strlit("/llms.txt");
    reveal_strlit("/index.html");
    reveal_strlit("/");
    text::law_prefixes_go_from_the_front(rest, prefix);
    assert(path[6] == 'r' && path[1] == 'f');
    assert(path.len() >= 14);
}

/// The snapshots after a new one has come: it is the current one, and the one before
/// it is the one that was current, unless that had the same name; then the older one
/// stays. The first snapshot has none before it.
pub proof fn law_installing_moves_the_current_snapshot(store: StoreView, next: CacheView)
    ensures
        store.installed(next).current == Some(next),
        store.current is None ==> store.installed(next).previous is None,
        store.current is Some && store.current->0.snapshot != next.snapshot ==> store.installed(
            next,
        ).previous == store.current,
        store.current is Some && store.current->0.snapshot == next.snapshot ==> store.installed(
            next,
        ).previous == store.previous,
{
}

} // verus!
