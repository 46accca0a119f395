//! The query strings of the note feed: pages and searches.
use vstd::prelude::*;
use vstd::string::*;
use vstd::utf8;

use crate::number;
use crate::number::{decimal_text, parse_text};
use crate::percent;
use crate::text;
use crate::text::{to_chars, to_text, trimmed};
use crate::trusted;
use crate::trusted::{encode_form, parse_form};

verus! {

/// The bytes that stand for themselves in a form-encoded text: letters, digits and
/// `* - . _`.
pub open spec fn is_form_plain(b: u8) -> bool {
    ||| 48 <= b <= 57
    ||| 65 <= b <= 90
    ||| 97 <= b <= 122
    ||| b == 42
    ||| b == 45
    ||| b == 46
    ||| b == 95
}

/// What stands for a byte in a form-encoded text.
pub open spec fn form_byte(b: u8) -> Seq<char> {
    if is_form_plain(b) {
        seq![b as char]
    } else if b == 32 {
        seq!['+']
    } else {
        percent::escaped_byte(b)
    }
}

/// Bytes in a form-encoded text.
pub open spec fn form_bytes(s: Seq<u8>) -> Seq<char>
    decreases s.len(),
{
    if s.len() == 0 {
        Seq::empty()
    } else {
        form_bytes(s.drop_last()) + form_byte(s.last())
    }
}

/// A name with its value in a form-encoded text.
pub open spec fn form_pair(pair: (Seq<char>, Seq<char>)) -> Seq<char> {
    form_bytes(utf8::encode_utf8(pair.0)) + seq!['='] + form_bytes(utf8::encode_utf8(pair.1))
}

/// Names with their values as one form-encoded text.
pub open spec fn form_encoded(pairs: Seq<(Seq<char>, Seq<char>)>) -> Seq<char> {
    text::join(pairs.map_values(|pair: (Seq<char>, Seq<char>)| form_pair(pair)), seq!['&'])
}

/// Bytes with a space in place of every plus sign.
pub open spec fn unplussed(s: Seq<u8>) -> Seq<u8> {
    s.map_values(|b: u8| if b == 43 { 32u8 } else { b })
}

/// The bytes that a name or a value of a form-encoded text stands for.
pub open spec fn form_decoded(s: Seq<char>) -> Seq<u8> {
    percent::percent_decode(unplussed(utf8::encode_utf8(s)))
}

/// The text that a name or a value of a form-encoded text stands for. `repaired`
/// is what bytes are read as that are not UTF-8.
pub open spec fn form_text(s: Seq<char>, repaired: spec_fn(Seq<u8>) -> Seq<char>) -> Seq<char> {
    if utf8::valid_utf8(form_decoded(s)) {
        utf8::decode_utf8(form_decoded(s))
    } else {
        repaired(form_decoded(s))
    }
}

/// The name and the value that a piece of a form-encoded text holds: what stands
/// before its first equals sign and what stands behind it.
pub open spec fn form_piece(s: Seq<char>, repaired: spec_fn(Seq<u8>) -> Seq<char>) -> (
    Seq<char>,
    Seq<char>,
) {
    let i = text::index_of(s, '=');
    (
        form_text(s.take(i), repaired),
        form_text(
            if i < s.len() {
                s.skip(i + 1)
            } else {
                Seq::empty()
            },
            repaired,
        ),
    )
}

/// The names and values that the pieces of a form-encoded text hold, in order.
/// Empty pieces hold nothing.
pub open spec fn form_pieces(
    pieces: Seq<Seq<char>>,
    repaired: spec_fn(Seq<u8>) -> Seq<char>,
) -> Seq<(Seq<char>, Seq<char>)>
    decreases pieces.len(),
{
    if pieces.len() == 0 {
        Seq::empty()
    } else if pieces.last().len() == 0 {
        form_pieces(pieces.drop_last(), repaired)
    } else {
        form_pieces(pieces.drop_last(), repaired).push(form_piece(pieces.last(), repaired))
    }
}

/// The names and values that a form-encoded text holds, in order.
pub open spec fn form_pairs(s: Seq<char>, repaired: spec_fn(Seq<u8>) -> Seq<char>) -> Seq<
    (Seq<char>, Seq<char>),
> {
    form_pieces(text::split(s, '&'), repaired)
}

/// The value that the last pair with a given name has.
pub open spec fn last_value(pairs: Seq<(Seq<char>, Seq<char>)>, name: Seq<char>) -> Option<
    Seq<char>,
>
    decreases pairs.len(),
{
    if pairs.len() == 0 {
        None
    } else if pairs.last().0 == name {
        Some(pairs.last().1)
    } else {
        last_value(pairs.drop_last(), name)
    }
}

/// The page that a query asks for, as the place of its first note and the number
/// of its notes, or the message that refuses it.
pub open spec fn parsed_page(pairs: Seq<(Seq<char>, Seq<char>)>) -> Result<
    (nat, nat),
    Seq<char>,
> {
    let offset = match last_value(pairs, "offset"@) {
        Some(s) => number::parsed_number(s, usize::MAX as nat),
        None => Some(0),
    };
    let limit = match last_value(pairs, "limit"@) {
        Some(s) => number::parsed_number(s, usize::MAX as nat),
        None => Some(20),
    };
    if offset is None {
        Err("offset must be a non-negative integer"@)
    } else if limit is None || limit->0 < 1 || limit->0 > 100 {
        Err("limit must be between 1 and 100"@)
    } else {
        Ok((offset->0, limit->0))
    }
}

/// The value that the last pair with a given name has.
pub fn find_last<'a>(pairs: &'a Vec<(String, String)>, name: &str) -> (r: Option<&'a String>)
    ensures
        match r {
            Some(value) => last_value(trusted::pair_views(pairs@), name@) == Some(value@),
            None => last_value(trusted::pair_views(pairs@), name@) is None,
        },
{
    let wanted = name.to_owned();
    let ghost all = trusted::pair_views(pairs@);
    let mut i: usize = pairs.len();
    assert(all.take(i as int) == all);
    while i > 0
        invariant
            i <= pairs@.len(),
            wanted@ == name@,
            all == trusted::pair_views(pairs@),
            last_value(all, name@) == last_value(all.take(i as int), name@),
        decreases i,
    {
        i -= 1;
        assert(all.take(i + 1).drop_last() == all.take(i as int));
        assert(all.take(i + 1).last() == all[i as int]);
        if pairs[i].0 == wanted {
            return Some(&pairs[i].1);
        }
    }
    None
}

/// The page that the pairs of a query ask for: `offset` is zero and `limit` is
/// twenty unless given, and `limit` lies between one and a hundred.
pub fn page_of_pairs(pairs: &Vec<(String, String)>) -> (r: Result<(usize, usize), &'static str>)
    ensures
        match r {
            Ok(page) => parsed_page(trusted::pair_views(pairs@)) == Ok::<(nat, nat), Seq<char>>(
                (page.0 as nat, page.1 as nat),
            ),
            Err(message) => parsed_page(trusted::pair_views(pairs@)) == Err::<
                (nat, nat),
                Seq<char>,
            >(message@),
        },
{
    let offset: u64 = match find_last(pairs, "offset") {
        Some(s) => match parse_text(s.as_str(), usize::MAX as u64) {
            Some(n) => n,
            None => return Err("offset must be a non-negative integer"),
        },
        None => 0,
    };
    let limit: u64 = match find_last(pairs, "limit") {
        Some(s) => match parse_text(s.as_str(), usize::MAX as u64) {
            Some(n) => n,
            None => return Err("limit must be between 1 and 100"),
        },
        None => 20,
    };
    if limit < 1 || limit > 100 {
        return Err("limit must be between 1 and 100");
    }
    Ok((offset as usize, limit as usize))
}

/// The pairs of a query; none where there is no query.
pub open spec fn query_pairs(query: Option<Seq<char>>) -> Seq<(Seq<char>, Seq<char>)> {
    match query {
        Some(s) => form_pairs(s, |bytes: Seq<u8>| trusted::repaired_text(bytes)),
        None => Seq::empty(),
    }
}

/// The pairs of a query; none where there is no query.
pub fn pairs_of(query: Option<&str>) -> (r: Vec<(String, String)>)
    ensures
        trusted::pair_views(r@) == query_pairs(
            match query {
                Some(s) => Some(s@),
                None => None,
            },
        ),
{
    match query {
        Some(s) => parse_form(s),
        None => {
            let r: Vec<(String, String)> = Vec::new();
            assert(trusted::pair_views(r@) == Seq::<(Seq<char>, Seq<char>)>::empty());
            r
        },
    }
}

/// The page that a query string asks for.
pub fn parse_llm_query(query: Option<&str>) -> (r: Result<(usize, usize), &'static str>)
    ensures
        ({
            let pairs = query_pairs(
                match query {
                    Some(s) => Some(s@),
                    None => None,
                },
            );
            match r {
                Ok(page) => parsed_page(pairs) == Ok::<(nat, nat), Seq<char>>(
                    (page.0 as nat, page.1 as nat),
                ),
                Err(message) => parsed_page(pairs) == Err::<(nat, nat), Seq<char>>(message@),
            }
        }),
        query is None ==> r == Ok::<(usize, usize), &'static str>((0, 20)),
{
    let pairs = pairs_of(query);
    page_of_pairs(&pairs)
}

/// The pairs that ask for a page.
pub open spec fn page_pairs(offset: nat, limit: nat) -> Seq<(Seq<char>, Seq<char>)> {
    seq![("offset"@, number::decimal(offset)), ("limit"@, number::decimal(limit))]
}

/// The query string that asks for a page.
pub fn page_params(offset: usize, limit: usize) -> (r: String)
    ensures
        r@ == form_encoded(page_pairs(offset as nat, limit as nat)),
        query_pairs(Some(r@)) == page_pairs(offset as nat, limit as nat),
{
    let mut pairs: Vec<(String, String)> = Vec::new();
    pairs.push(("offset".to_owned(), decimal_text(offset as u64)));
    pairs.push(("limit".to_owned(), decimal_text(limit as u64)));
    assert(trusted::pair_views(pairs@) =~= page_pairs(offset as nat, limit as nat));
    proof {
        law_parsing_undoes_form_encoding(
            page_pairs(offset as nat, limit as nat),
            |bytes: Seq<u8>| trusted::repaired_text(bytes),
        );
    }
    encode_form(&pairs)
}

/// A search of the notes.
pub struct SearchQuery {
    /// What is looked for.
    pub q: String,
    /// Whether it is a regular expression.
    pub regex: bool,
    /// How many matches are passed over.
    pub offset: usize,
    /// How many matches are wanted.
    pub limit: usize,
    /// The snapshot that the search is meant for.
    pub snapshot: Option<String>,
}

/// A search as a mathematical value.
pub struct QueryView {
    pub q: Seq<char>,
    pub regex: bool,
    pub offset: nat,
    pub limit: nat,
    pub snapshot: Option<Seq<char>>,
}

impl View for SearchQuery {
    type V = QueryView;

    open spec fn view(&self) -> QueryView {
        QueryView {
            q: self.q@,
            regex: self.regex,
            offset: self.offset as nat,
            limit: self.limit as nat,
            snapshot: match self.snapshot {
                Some(s) => Some(s@),
                None => None,
            },
        }
    }
}

impl QueryView {
    /// What holds of every search that was parsed: the text has no white space
    /// at its ends and at most 2048 bytes, and the numbers are in range.
    pub open spec fn well_formed(self) -> bool {
        &&& text::trim(self.q) == self.q
        &&& utf8::encode_utf8(self.q).len() <= 2048
        &&& self.offset <= usize::MAX
        &&& 1 <= self.limit <= 100
    }

    /// The pairs that ask for another page of the same search.
    pub open spec fn pairs(self, offset: nat, snapshot: Seq<char>) -> Seq<(Seq<char>, Seq<char>)> {
        seq![
            ("q"@, self.q),
            ("regex"@, if self.regex { "1"@ } else { "0"@ }),
            ("offset"@, number::decimal(offset)),
            ("limit"@, number::decimal(self.limit)),
            ("snapshot"@, snapshot),
        ]
    }
}

/// The search that the pairs of a query describe, or the message that refuses
/// it.
pub open spec fn parsed_query(pairs: Seq<(Seq<char>, Seq<char>)>) -> Result<QueryView, Seq<char>> {
    let q = match last_value(pairs, "q"@) {
        Some(s) => text::trim(s),
        None => Seq::empty(),
    };
    let regex = last_value(pairs, "regex"@);
    if utf8::encode_utf8(q).len() > 2048 {
        Err("搜索内容过长，请缩短后重试。"@)
    } else if regex is Some && regex->0 != "0"@ && regex->0 != "1"@ {
        Err("regex must be 0 or 1"@)
    } else {
        match parsed_page(pairs) {
            Err(message) => Err(message),
            Ok(page) => Ok(
                QueryView {
                    q,
                    regex: regex == Some("1"@),
                    offset: page.0,
                    limit: page.1,
                    snapshot: last_value(pairs, "snapshot"@),
                },
            ),
        }
    }
}

impl SearchQuery {
    /// The search that the pairs of a query describe.
    pub fn from_pairs(pairs: &Vec<(String, String)>) -> (r: Result<SearchQuery, &'static str>)
        ensures
            match r {
                Ok(query) => parsed_query(trusted::pair_views(pairs@)) == Ok::<
                    QueryView,
                    Seq<char>,
                >(query@),
                Err(message) => parsed_query(trusted::pair_views(pairs@)) == Err::<
                    QueryView,
                    Seq<char>,
                >(message@),
            },
    {
        let q = match find_last(pairs, "q") {
            Some(s) => {
                let chars = to_chars(s.as_str());
                to_text(trimmed(chars.as_slice()))
            },
            None => String::new(),
        };
        if q.as_str().as_bytes().len() > 2048 {
            return Err("搜索内容过长，请缩短后重试。");
        }
        let regex = match find_last(pairs, "regex") {
            None => false,
            Some(s) => if *s == "0".to_owned() {
                false
            } else if *s == "1".to_owned() {
                true
            } else {
                return Err("regex must be 0 or 1");
            },
        };
        proof {
            reveal_strlit("0");
            reveal_strlit("1");
            assert("0"@[0] != "1"@[0]);
        }
        match page_of_pairs(pairs) {
            Err(message) => Err(message),
            Ok(page) => {
                let snapshot = match find_last(pairs, "snapshot") {
                    Some(s) => Some(s.clone()),
                    None => None,
                };
                Ok(SearchQuery { q, regex, offset: page.0, limit: page.1, snapshot })
            },
        }
    }

    /// The search that a query string describes.
    pub fn parse(query: Option<&str>) -> (r: Result<SearchQuery, &'static str>)
        ensures
            ({
                let pairs = query_pairs(
                    match query {
                        Some(s) => Some(s@),
                        None => None,
                    },
                );
                match r {
                    Ok(search) => parsed_query(pairs) == Ok::<QueryView, Seq<char>>(search@),
                    Err(message) => parsed_query(pairs) == Err::<QueryView, Seq<char>>(message@),
                }
            }),
    {
        let pairs = pairs_of(query);
        SearchQuery::from_pairs(&pairs)
    }

    /// The pairs that ask for another page of the same search in a snapshot.
    pub fn pairs(&self, offset: usize, snapshot: &str) -> (r: Vec<(String, String)>)
        ensures
            trusted::pair_views(r@) == self@.pairs(offset as nat, snapshot@),
    {
        let mut pairs: Vec<(String, String)> = Vec::new();
        pairs.push(("q".to_owned(), self.q.clone()));
        let regex = if self.regex {
            "1".to_owned()
        } else {
            "0".to_owned()
        };
        pairs.push(("regex".to_owned(), regex));
        pairs.push(("offset".to_owned(), decimal_text(offset as u64)));
        pairs.push(("limit".to_owned(), decimal_text(self.limit as u64)));
        pairs.push(("snapshot".to_owned(), snapshot.to_owned()));
        assert(trusted::pair_views(pairs@) =~= self@.pairs(offset as nat, snapshot@));
        pairs
    }

    /// The query string that asks for another page of the same search in a
    /// snapshot.
    pub fn params(&self, offset: usize, snapshot: &str) -> (r: String)
        ensures
            r@ == form_encoded(self@.pairs(offset as nat, snapshot@)),
            query_pairs(Some(r@)) == self@.pairs(offset as nat, snapshot@),
    {
        let pairs = self.pairs(offset, snapshot);
        proof {
            law_parsing_undoes_form_encoding(
                self@.pairs(offset as nat, snapshot@),
                |bytes: Seq<u8>| trusted::repaired_text(bytes),
            );
        }
        encode_form(&pairs)
    }
}

/// Trimming twice is trimming once.
pub proof fn lemma_trim_idempotent(s: Seq<char>)
    ensures
        text::trim(text::trim(s)) == text::trim(s),
{
    lemma_trim_start(s);
    lemma_trim_end(text::trim_start(s));
}

proof fn lemma_trim_start(s: Seq<char>)
    ensures
        text::trim_start(s).len() > 0 ==> !text::is_space(text::trim_start(s)[0]),
    decreases s.len(),
{
    if s.len() > 0 && text::is_space(s[0]) {
        lemma_trim_start(s.drop_first());
    }
}

proof fn lemma_trim_end(s: Seq<char>)
    ensures
        text::trim_end(s).len() > 0 ==> !text::is_space(text::trim_end(s).last()) && s.len() > 0
            && text::trim_end(s)[0] == s[0],
    decreases s.len(),
{
    if s.len() > 0 && text::is_space(s.last()) {
        lemma_trim_end(s.drop_last());
    }
}

/// Every search that was parsed is well-formed.
pub proof fn law_parsed_query_is_well_formed(pairs: Seq<(Seq<char>, Seq<char>)>)
    requires
        parsed_query(pairs) is Ok,
    ensures
        parsed_query(pairs)->Ok_0.well_formed(),
{
    if let Some(s) = last_value(pairs, "q"@) {
        lemma_trim_idempotent(s);
    }
}

/// The link to the next page of a search leads back to the same search: its
/// pairs are parsed as the same text, mode and limit, with the offset and the
/// snapshot of the link.
pub proof fn law_next_page_preserves_search(query: QueryView, offset: nat, snapshot: Seq<char>)
    requires
        query.well_formed(),
        offset <= usize::MAX,
    ensures
        parsed_query(query.pairs(offset, snapshot)) == Ok::<QueryView, Seq<char>>(
            QueryView { offset, snapshot: Some(snapshot), ..query },
        ),
{
    let pairs = query.pairs(offset, snapshot);
    reveal_strlit("q");
    reveal_strlit("regex");
    reveal_strlit("offset");
    reveal_strlit("limit");
    reveal_strlit("snapshot");
    reveal_strlit("0");
    reveal_strlit("1");
    assert("0"@[0] != "1"@[0]);
    assert("regex"@[0] == 'r' && "limit"@[0] == 'l' && "offset"@[0] == 'o' && "snapshot"@[0] == 's'
        && "q"@[0] == 'q');
    reveal_with_fuel(last_value, 6);
    assert(pairs.drop_last().last() == pairs[3]);
    assert(pairs.drop_last().drop_last().last() == pairs[2]);
    assert(pairs.drop_last().drop_last().drop_last().last() == pairs[1]);
    assert(pairs.drop_last().drop_last().drop_last().drop_last().last() == pairs[0]);
    number::lemma_decimal_round_trip(offset);
    number::lemma_decimal_round_trip(query.limit);
}

/// ASCII text whose characters all stand for themselves is form-encoded as it is.
proof fn lemma_form_plain(s: Seq<char>)
    requires
        forall|i: int|
            0 <= i < s.len() ==> '0' <= #[trigger] s[i] <= '9' || 'a' <= s[i] <= 'z',
    ensures
        form_bytes(utf8::encode_utf8(s)) == s,
{
    assert(utf8::is_ascii_chars(s));
    utf8::is_ascii_chars_encode_utf8(s);
    let bytes = utf8::encode_utf8(s);
    lemma_form_plain_bytes(bytes);
    assert(bytes.map_values(|b: u8| b as char) =~= s);
}

proof fn lemma_form_plain_bytes(bytes: Seq<u8>)
    requires
        forall|i: int| 0 <= i < bytes.len() ==> is_form_plain(#[trigger] bytes[i]),
    ensures
        form_bytes(bytes) == bytes.map_values(|b: u8| b as char),
    decreases bytes.len(),
{
    let chars = bytes.map_values(|b: u8| b as char);
    if bytes.len() > 0 {
        lemma_form_plain_bytes(bytes.drop_last());
        assert(chars =~= bytes.drop_last().map_values(|b: u8| b as char) + seq![
            bytes.last() as char,
        ]);
    }
}

/// The query string of a page reads as its two numbers.
pub proof fn law_page_links_read_as_their_numbers(offset: nat, limit: nat)
    ensures
        form_encoded(page_pairs(offset, limit)) == "offset="@ + number::decimal(offset)
            + "&limit="@ + number::decimal(limit),
{
    let pairs = page_pairs(offset, limit);
    reveal_strlit("offset");
    reveal_strlit("limit");
    reveal_strlit("offset=");
    reveal_strlit("&limit=");
    number::lemma_decimal_round_trip(offset);
    number::lemma_decimal_round_trip(limit);
    lemma_form_plain("offset"@);
    lemma_form_plain("limit"@);
    lemma_form_plain(number::decimal(offset));
    lemma_form_plain(number::decimal(limit));
    let parts = pairs.map_values(|pair: (Seq<char>, Seq<char>)| form_pair(pair));
    assert(parts.drop_last() == seq![form_pair(pairs[0])]);
    assert(text::join(parts.drop_last(), seq!['&']) == form_pair(pairs[0]));
    assert(form_encoded(pairs) =~= "offset="@ + number::decimal(offset) + "&limit="@
        + number::decimal(limit));
}

/// The query string of a page asks for that page.
pub proof fn law_page_links_lead_to_their_pages(offset: nat, limit: nat)
    requires
        offset <= usize::MAX,
        1 <= limit <= 100,
    ensures
        parsed_page(page_pairs(offset, limit)) == Ok::<(nat, nat), Seq<char>>((offset, limit)),
        last_value(page_pairs(offset, limit), "q"@) is None,
{
    let pairs = page_pairs(offset, limit);
    reveal_strlit("offset");
    reveal_strlit("limit");
    reveal_strlit("q");
    number::lemma_decimal_round_trip(offset);
    number::lemma_decimal_round_trip(limit);
    assert("offset"@.len() == 6 && "limit"@.len() == 5 && "q"@.len() == 1);
    reveal_with_fuel(last_value, 3);
    assert(pairs.drop_last().last() == pairs[0]);
}

/// What stands for a byte is read as that byte, whatever follows.
proof fn lemma_form_byte(b: u8, rest: Seq<u8>)
    ensures
        percent::percent_decode(unplussed(percent::ascii_bytes(form_byte(b))) + rest) == seq![b]
            + percent::percent_decode(rest),
{
    let s = unplussed(percent::ascii_bytes(form_byte(b))) + rest;
    if is_form_plain(b) || b == 32 {
        assert(s[0] == b);
        assert(s.drop_first() =~= rest);
    } else {
        let high = percent::hex_upper(b as int / 16);
        let low = percent::hex_upper(b as int % 16);
        assert(s[0] == 37 && s[1] == high as u8 && s[2] == low as u8);
        assert(percent::hex_value(s[1]) == Some(b as int / 16));
        assert(percent::hex_value(s[2]) == Some(b as int % 16));
        assert(s.skip(3) =~= rest);
    }
}

/// What stands for bytes is read as those bytes, whatever follows.
proof fn lemma_form_bytes(s: Seq<u8>, rest: Seq<u8>)
    ensures
        percent::percent_decode(unplussed(percent::ascii_bytes(form_bytes(s))) + rest) == s
            + percent::percent_decode(rest),
    decreases s.len(),
{
    let all = unplussed(percent::ascii_bytes(form_bytes(s)));
    if s.len() == 0 {
        assert(all + rest =~= rest);
        assert(s + percent::percent_decode(rest) =~= percent::percent_decode(rest));
    } else {
        let front = unplussed(percent::ascii_bytes(form_bytes(s.drop_last())));
        let last = unplussed(percent::ascii_bytes(form_byte(s.last())));
        assert(all + rest =~= front + (last + rest));
        lemma_form_bytes(s.drop_last(), last + rest);
        lemma_form_byte(s.last(), rest);
        assert(s.drop_last() + (seq![s.last()] + percent::percent_decode(rest)) =~= s
            + percent::percent_decode(rest));
    }
}

/// What stands for bytes is ASCII text without ampersands and equals signs.
proof fn lemma_form_chars(s: Seq<u8>)
    ensures
        forall|i: int|
            0 <= i < form_bytes(s).len() ==> '\0' <= #[trigger] form_bytes(s)[i] <= '\u{7f}'
                && form_bytes(s)[i] != '&' && form_bytes(s)[i] != '=',
    decreases s.len(),
{
    if s.len() > 0 {
        lemma_form_chars(s.drop_last());
        let all = form_bytes(s);
        let front = form_bytes(s.drop_last());
        let last = form_byte(s.last());
        assert forall|i: int| 0 <= i < all.len() implies '\0' <= #[trigger] all[i] <= '\u{7f}'
            && all[i] != '&' && all[i] != '=' by {
            if i < front.len() {
                assert(all[i] == front[i]);
            } else {
                assert(all[i] == last[i - front.len()]);
            }
        }
    }
}

/// A name or a value in a form-encoded text is read as itself.
proof fn lemma_form_text(s: Seq<char>, repaired: spec_fn(Seq<u8>) -> Seq<char>)
    ensures
        form_text(form_bytes(utf8::encode_utf8(s)), repaired) == s,
{
    let bytes = utf8::encode_utf8(s);
    let encoded = form_bytes(bytes);
    lemma_form_chars(bytes);
    assert(utf8::is_ascii_chars(encoded));
    utf8::is_ascii_chars_encode_utf8(encoded);
    assert(utf8::encode_utf8(encoded) =~= percent::ascii_bytes(encoded));
    lemma_form_bytes(bytes, Seq::empty());
    let plain = unplussed(percent::ascii_bytes(encoded));
    assert(plain + Seq::<u8>::empty() =~= plain);
    assert(percent::percent_decode(Seq::<u8>::empty()) =~= Seq::<u8>::empty());
    assert(bytes + Seq::<u8>::empty() =~= bytes);
    assert(form_decoded(encoded) == bytes);
    utf8::encode_utf8_valid_utf8(s);
    utf8::encode_utf8_decode_utf8(s);
}

/// A pair in a form-encoded text is read as itself.
proof fn lemma_form_pair(
    pair: (Seq<char>, Seq<char>),
    repaired: spec_fn(Seq<u8>) -> Seq<char>,
)
    ensures
        form_piece(form_pair(pair), repaired) == pair,
        form_pair(pair).len() > 0,
        !form_pair(pair).contains('&'),
{
    let name = form_bytes(utf8::encode_utf8(pair.0));
    let value = form_bytes(utf8::encode_utf8(pair.1));
    let s = form_pair(pair);
    lemma_form_chars(utf8::encode_utf8(pair.0));
    lemma_form_chars(utf8::encode_utf8(pair.1));
    assert forall|i: int| 0 <= i < s.len() implies #[trigger] s[i] != '&' by {
        if i < name.len() {
            assert(s[i] == name[i]);
        } else if i > name.len() {
            assert(s[i] == value[i - name.len() - 1]);
        }
    }
    assert forall|j: int| 0 <= j < name.len() implies s[j] != '=' by {
        assert(s[j] == name[j]);
    }
    text::lemma_index_of_at(s, '=', name.len() as int);
    assert(s.take(name.len() as int) =~= name);
    assert(s.skip(name.len() as int + 1) =~= value);
    lemma_form_text(pair.0, repaired);
    lemma_form_text(pair.1, repaired);
}

/// The pieces of a form-encoded text are read as the pairs that they were made of.
proof fn lemma_form_pieces(
    pairs: Seq<(Seq<char>, Seq<char>)>,
    repaired: spec_fn(Seq<u8>) -> Seq<char>,
)
    ensures
        form_pieces(
            pairs.map_values(|pair: (Seq<char>, Seq<char>)| form_pair(pair)),
            repaired,
        ) == pairs,
    decreases pairs.len(),
{
    let pieces = pairs.map_values(|pair: (Seq<char>, Seq<char>)| form_pair(pair));
    if pairs.len() > 0 {
        let front = pairs.drop_last();
        lemma_form_pieces(front, repaired);
        lemma_form_pair(pairs.last(), repaired);
        assert(pieces.drop_last() =~= front.map_values(
            |pair: (Seq<char>, Seq<char>)| form_pair(pair),
        ));
        assert(front.push(pairs.last()) =~= pairs);
    } else {
        assert(form_pieces(pieces, repaired) =~= pairs);
    }
}

/// Reading a form-encoded text gives back the pairs that it was made of.
pub proof fn law_parsing_undoes_form_encoding(
    pairs: Seq<(Seq<char>, Seq<char>)>,
    repaired: spec_fn(Seq<u8>) -> Seq<char>,
)
    ensures
        form_pairs(form_encoded(pairs), repaired) == pairs,
{
    let pieces = pairs.map_values(|pair: (Seq<char>, Seq<char>)| form_pair(pair));
    lemma_form_pieces(pairs, repaired);
    if pairs.len() > 0 {
        assert forall|i: int| 0 <= i < pieces.len() implies !(#[trigger] pieces[i]).contains(
            '&',
        ) by {
            lemma_form_pair(pairs[i], repaired);
        }
        text::lemma_split_join(pieces, '&');
    } else {
        let none = Seq::<char>::empty();
        assert(form_encoded(pairs) == none);
        assert(text::split(none, '&') == seq![none]);
        assert(seq![none].drop_last() =~= Seq::<Seq<char>>::empty());
        reveal_with_fuel(form_pieces, 2);
        assert(form_pairs(form_encoded(pairs), repaired) =~= pairs);
    }
}

/// Of several pairs with the same name the last one counts.
pub proof fn law_last_pairs_count(
    before: Seq<(Seq<char>, Seq<char>)>,
    name: Seq<char>,
    value: Seq<char>,
    after: Seq<(Seq<char>, Seq<char>)>,
)
    requires
        forall|i: int| 0 <= i < after.len() ==> (#[trigger] after[i]).0 != name,
    ensures
        last_value(before + seq![(name, value)] + after, name) == Some(value),
        last_value(after, name) is None,
    decreases after.len(),
{
    let all = before + seq![(name, value)] + after;
    if after.len() > 0 {
        let front = after.drop_last();
        assert(after[after.len() - 1].0 != name);
        assert(all.last() == after.last());
        assert(all.drop_last() =~= before + seq![(name, value)] + front);
        assert forall|i: int| 0 <= i < front.len() implies (#[trigger] front[i]).0 != name by {
            assert(front[i] == after[i]);
        }
        law_last_pairs_count(before, name, value, front);
    } else {
        assert(all.last() == (name, value));
    }
}

/// A query asks for twenty notes from the first one on, unless its last offset and its
/// last limit say otherwise. An offset that is no number is refused first, and then a
/// limit that is none or does not lie between one and a hundred.
pub proof fn law_pages_are_asked_for(pairs: Seq<(Seq<char>, Seq<char>)>)
    ensures
        ({
            let offset = last_value(pairs, "offset"@);
            let limit = last_value(pairs, "limit"@);
            let o = if offset is None {
                Some(0nat)
            } else {
                number::parsed_number(offset->0, usize::MAX as nat)
            };
            let l = if limit is None {
                Some(20nat)
            } else {
                number::parsed_number(limit->0, usize::MAX as nat)
            };
            &&& o is None ==> parsed_page(pairs) == Err::<(nat, nat), Seq<char>>(
                "offset must be a non-negative integer"@,
            )
            &&& o is Some && (l is None || l->0 == 0 || l->0 > 100) ==> parsed_page(pairs) == Err::<
                (nat, nat),
                Seq<char>,
            >("limit must be between 1 and 100"@)
            &&& o is Some && l is Some && 1 <= l->0 <= 100 ==> parsed_page(pairs) == Ok::<
                (nat, nat),
                Seq<char>,
            >((o->0, l->0))
        }),
{
}

/// A search is for the last text without the white space at its ends, as it stands
/// unless it is said to be a regular expression, in the page and the snapshot that
/// the query names. A text of more than 2048 bytes is refused first, then a mode
/// that is neither nought nor one, and then a page that cannot be read.
pub proof fn law_searches_are_asked_for(pairs: Seq<(Seq<char>, Seq<char>)>)
    ensures
        ({
            let q = last_value(pairs, "q"@);
            let text = if q is Some {
                text::trim(q->0)
            } else {
                Seq::empty()
            };
            let regex = last_value(pairs, "regex"@);
            let mode = regex is None || regex->0 == "0"@ || regex->0 == "1"@;
            let page = parsed_page(pairs);
            &&& utf8::encode_utf8(text).len() > 2048 ==> parsed_query(pairs) == Err::<
                QueryView,
                Seq<char>,
            >("搜索内容过长，请缩短后重试。"@)
            &&& utf8::encode_utf8(text).len() <= 2048 && !mode ==> parsed_query(pairs) == Err::<
                QueryView,
                Seq<char>,
            >("regex must be 0 or 1"@)
            &&& utf8::encode_utf8(text).len() <= 2048 && mode && page is Err ==> parsed_query(pairs)
                == Err::<QueryView, Seq<char>>(page->Err_0)
            &&& utf8::encode_utf8(text).len() <= 2048 && mode && page is Ok ==> {
                &&& parsed_query(pairs) is Ok
                &&& parsed_query(pairs)->Ok_0.q == text
                &&& parsed_query(pairs)->Ok_0.regex == (regex is Some && regex->0 == "1"@)
                &&& parsed_query(pairs)->Ok_0.offset == page->Ok_0.0
                &&& parsed_query(pairs)->Ok_0.limit == page->Ok_0.1
                &&& parsed_query(pairs)->Ok_0.snapshot == last_value(pairs, "snapshot"@)
            }
        }),
{
}

/// A query string holds the pairs that it was made of, and a request without one holds
/// none.
pub proof fn law_query_strings_hold_their_pairs(pairs: Seq<(Seq<char>, Seq<char>)>)
    ensures
        query_pairs(Some(form_encoded(pairs))) == pairs,
        query_pairs(None) == Seq::<(Seq<char>, Seq<char>)>::empty(),
{
    law_parsing_undoes_form_encoding(pairs, |bytes: Seq<u8>| trusted::repaired_text(bytes));
}

} // verus!
