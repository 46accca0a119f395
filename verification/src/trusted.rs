//! What the library takes from other crates and from the standard library
//! without proof. Each item names the function that it calls and says what it
//! claims of it.
use vstd::prelude::*;
use vstd::string::*;
use vstd::utf8;

use crate::json;
use crate::percent;
use crate::query;
use crate::site;

verus! {

/// `String::push` appends one character.
pub assume_specification[ String::push ](s: &mut String, c: char)
    ensures
        final(s)@ == old(s)@.push(c),
;

/// `percent_encoding::percent_encode_byte` gives the escape of any byte: a
/// percent sign and the two hexadecimal digits of the byte, in upper case.
pub assume_specification[ percent_encoding::percent_encode_byte ](byte: u8) -> (r: &'static str)
    ensures
        r@ == percent::escaped_byte(byte),
;

/// `percent_encoding::percent_decode_str`, followed by `decode_utf8`: every
/// percent sign with two hexadecimal digits behind it becomes the byte that they
/// write, every other byte stays, and the text is what those bytes encode in
/// UTF-8. There is no text where the bytes are not UTF-8.
#[verifier::external_body]
pub(crate) fn percent_decoded(s: &str) -> (r: Option<String>)
    ensures
        match r {
            Some(text) => utf8::valid_utf8(percent::percent_decode(s.spec_bytes())) && text@
                == utf8::decode_utf8(percent::percent_decode(s.spec_bytes())),
            None => !utf8::valid_utf8(percent::percent_decode(s.spec_bytes())),
        },
{
    percent_encoding::percent_decode_str(s).decode_utf8().ok().map(|text| text.into_owned())
}

/// What the library reads of a parsed URL.
pub struct UrlParts {
    /// The scheme, in lower case and without the colon.
    pub scheme: String,
    /// The host, where there is one.
    pub host: Option<String>,
    /// The whole URL in its serialised form.
    pub text: String,
}

/// The parts of a URL as texts.
pub struct UrlView {
    pub scheme: Seq<char>,
    pub host: Option<Seq<char>>,
    pub text: Seq<char>,
}

impl View for UrlParts {
    type V = UrlView;

    open spec fn view(&self) -> UrlView {
        UrlView {
            scheme: self.scheme@,
            host: match self.host {
                Some(host) => Some(host@),
                None => None,
            },
            text: self.text@,
        }
    }
}

/// What `url::Url::parse` makes of a text: the parts of the URL, or the message
/// of the error.
pub uninterp spec fn url_parsed(input: Seq<char>) -> Result<UrlView, Seq<char>>;

/// `url::Url::parse`, with `scheme`, `host_str` and `as_str` read of the URL and
/// the error taken by its message. The result depends on the text alone.
#[verifier::external_body]
pub(crate) fn parse_url(input: &str) -> (r: Result<UrlParts, String>)
    ensures
        match r {
            Ok(parts) => url_parsed(input@) == Ok::<UrlView, Seq<char>>(parts@),
            Err(message) => url_parsed(input@) == Err::<UrlView, Seq<char>>(message@),
        },
{
    match url::Url::parse(input) {
        Ok(url) => Ok(UrlParts {
            scheme: url.scheme().to_owned(),
            host: url.host_str().map(|host| host.to_owned()),
            text: url.as_str().to_owned(),
        }),
        Err(error) => Err(error.to_string()),
    }
}

/// `url::Url::set_query` and `url::Url::set_fragment`, each with `None`, on the
/// URL that a text parses to, and the serialised form of what is left. There is
/// a result exactly where the text parses. Of an HTTP or HTTPS URL, in whose
/// serialised form the first question mark or number sign opens the query or the
/// fragment, it is what stands before that; of other URLs nothing is stated.
#[verifier::external_body]
pub(crate) fn drop_query(input: &str) -> (r: Option<String>)
    ensures
        (r is Some) == (url_parsed(input@) is Ok),
        r is Some && (url_parsed(input@)->Ok_0.scheme == "http"@ || url_parsed(
            input@,
        )->Ok_0.scheme == "https"@) ==> r->0@ == site::before_query(
            url_parsed(input@)->Ok_0.text,
        ),
{
    let mut url = url::Url::parse(input).ok()?;
    url.set_query(None);
    url.set_fragment(None);
    Some(String::from(url))
}

/// `serde_json::to_string` of a string, which never fails: the string in quotes,
/// with a backslash before every quote and backslash, the short escapes for
/// backspace, tab, line feed, form feed and carriage return, four hexadecimal
/// digits for any other control character, and every other character as it is.
#[verifier::external_body]
pub(crate) fn json_string(s: &str) -> (r: String)
    ensures
        r@ == json::quoted(s@),
{
    serde_json::to_string(s).unwrap()
}

/// Names with their values as texts.
pub open spec fn pair_views(pairs: Seq<(String, String)>) -> Seq<(Seq<char>, Seq<char>)> {
    pairs.map_values(|pair: (String, String)| (pair.0@, pair.1@))
}

/// What `url::form_urlencoded::parse` reads bytes as that are not UTF-8: a text in
/// which something stands for what could not be read.
pub uninterp spec fn repaired_text(bytes: Seq<u8>) -> Seq<char>;

/// `url::form_urlencoded::parse`, with all pairs collected: the names and values
/// between the ampersands, in order and decoded. What it makes of bytes that are
/// not UTF-8 has a name and is not stated.
#[verifier::external_body]
pub(crate) fn parse_form(query: &str) -> (r: Vec<(String, String)>)
    ensures
        pair_views(r@) == query::form_pairs(query@, |bytes: Seq<u8>| repaired_text(bytes)),
{
    url::form_urlencoded::parse(query.as_bytes()).into_owned().collect()
}

/// `url::form_urlencoded::Serializer`, with all pairs appended in order: the pairs
/// with ampersands between them, each a name, an equals sign and a value, in
/// which letters, digits and `* - . _` stand for themselves, a plus sign for the
/// space and an escape for any other byte.
#[verifier::external_body]
pub(crate) fn encode_form(pairs: &Vec<(String, String)>) -> (r: String)
    ensures
        r@ == query::form_encoded(pair_views(pairs@)),
{
    url::form_urlencoded::Serializer::new(String::new()).extend_pairs(pairs.iter()).finish()
}

/// The date of an RFC 3339 time in the zone with a given offset from UTC in
/// seconds, written after a pattern.
pub uninterp spec fn zoned_date(time: Seq<char>, offset: int, pattern: Seq<char>) -> Option<
    Seq<char>,
>;

/// `chrono::DateTime::parse_from_rfc3339`, `with_timezone` with a
/// `chrono::FixedOffset`, and `format`: the date of a time in a zone. There is
/// none where the text is no RFC 3339 time. The zone lies within a day of UTC,
/// and the pattern is one that `format` can write. What the date looks like for a
/// given time is not stated.
#[verifier::external_body]
pub(crate) fn format_date(time: &str, offset: i32, pattern: &str) -> (r: Option<String>)
    requires
        -86400 < offset < 86400,
        pattern@ == "%Y-%m-%d"@,
    ensures
        match r {
            Some(date) => zoned_date(time@, offset as int, pattern@) == Some(date@),
            None => zoned_date(time@, offset as int, pattern@) is None,
        },
{
    let zone = chrono::FixedOffset::east_opt(offset).unwrap();
    let time = chrono::DateTime::parse_from_rfc3339(time).ok()?;
    Some(time.with_timezone(&zone).format(pattern).to_string())
}

/// What a piece of Markdown is made of, in the order of the text.
pub enum MarkdownEvent {
    /// A line of raw HTML.
    Html(String),
    /// A tag of raw HTML inside a line.
    InlineHtml(String),
    /// Text.
    Text(String),
    /// Anything else, by its place among all events of the Markdown.
    Kept(usize),
}

/// What a piece of Markdown is made of, as a mathematical value.
pub enum EventView {
    Html(Seq<char>),
    InlineHtml(Seq<char>),
    Text(Seq<char>),
    Kept(nat),
}

impl View for MarkdownEvent {
    type V = EventView;

    open spec fn view(&self) -> EventView {
        match self {
            MarkdownEvent::Html(s) => EventView::Html(s@),
            MarkdownEvent::InlineHtml(s) => EventView::InlineHtml(s@),
            MarkdownEvent::Text(s) => EventView::Text(s@),
            MarkdownEvent::Kept(i) => EventView::Kept(*i as nat),
        }
    }
}

/// What a list of events holds.
pub open spec fn event_views(events: Seq<MarkdownEvent>) -> Seq<EventView> {
    events.map_values(|event: MarkdownEvent| event@)
}

/// The events that are given by their places lie among the first `len`.
pub open spec fn events_fit(events: Seq<EventView>, len: nat) -> bool {
    forall|k: int|
        0 <= k < events.len() && #[trigger] events[k] is Kept ==> events[k]->Kept_0 < len
}

/// The events of a piece of Markdown.
pub uninterp spec fn markdown_events(markdown: Seq<char>) -> Seq<EventView>;

/// `pulldown_cmark::Parser::new_ext` with all extensions: the events of a piece of
/// Markdown, of which those that hold raw HTML or text are given with what they
/// hold and all others by their places. The result depends on the text alone.
#[verifier::external_body]
pub(crate) fn parse_markdown(markdown: &str) -> (r: Vec<MarkdownEvent>)
    ensures
        event_views(r@) == markdown_events(markdown@),
        events_fit(event_views(r@), r@.len()),
{
    let options = pulldown_cmark::Options::all();
    let events = pulldown_cmark::Parser::new_ext(markdown, options).enumerate();
    let convert = |(i, event)| match event {
        pulldown_cmark::Event::Html(s) => MarkdownEvent::Html(s.into_string()),
        pulldown_cmark::Event::InlineHtml(s) => MarkdownEvent::InlineHtml(s.into_string()),
        pulldown_cmark::Event::Text(s) => MarkdownEvent::Text(s.into_string()),
        _ => MarkdownEvent::Kept(i),
    };
    events.map(convert).collect()
}

/// Events as HTML, where those that are given by their places are events of a
/// piece of Markdown.
pub uninterp spec fn events_html(markdown: Seq<char>, events: Seq<EventView>) -> Seq<char>;

/// `pulldown_cmark::html::push_html`, on events of which those that are given by
/// their places are those of `pulldown_cmark::Parser::new_ext` with all extensions
/// on a piece of Markdown. The result depends on the Markdown and the events
/// alone.
#[verifier::external_body]
pub(crate) fn html_of_events(markdown: &str, events: &Vec<MarkdownEvent>) -> (r: String)
    requires
        events_fit(event_views(events@), markdown_events(markdown@).len()),
    ensures
        r@ == events_html(markdown@, event_views(events@)),
{
    let options = pulldown_cmark::Options::all();
    let all: Vec<_> = pulldown_cmark::Parser::new_ext(markdown, options).collect();
    let convert = |event: &MarkdownEvent| match event {
        MarkdownEvent::Html(s) => pulldown_cmark::Event::Html(s.clone().into()),
        MarkdownEvent::InlineHtml(s) => pulldown_cmark::Event::InlineHtml(s.clone().into()),
        MarkdownEvent::Text(s) => pulldown_cmark::Event::Text(s.clone().into()),
        MarkdownEvent::Kept(i) => all[*i].clone(),
    };
    let mut html = String::new();
    pulldown_cmark::html::push_html(&mut html, events.iter().map(convert));
    html
}

/// HTML without what is not safe, and with one more attribute allowed.
pub uninterp spec fn sanitized_html(html: Seq<char>, attribute: Seq<char>) -> Seq<char>;

/// `ammonia::Builder::clean` with the default rules and one more attribute that
/// every element may have. `rel` cannot be that attribute: the default rules set
/// it. The result depends on the arguments alone; what the rules take out is not
/// stated.
#[verifier::external_body]
pub(crate) fn sanitize(html: &str, attribute: &str) -> (r: String)
    requires
        attribute@ != "rel"@,
    ensures
        r@ == sanitized_html(html@, attribute@),
{
    ammonia::Builder::default().add_generic_attributes([attribute]).clean(html).to_string()
}

/// A text in lower case, after the rules of Unicode.
pub uninterp spec fn lowercase(s: Seq<char>) -> Seq<char>;

/// `str::to_lowercase`: the lower case form of a text after the Unicode property
/// `Lowercase`. The result depends on the text alone, and that of the empty text
/// is empty.
#[verifier::external_body]
pub(crate) fn to_lowercase(s: &str) -> (r: String)
    ensures
        r@ == lowercase(s@),
        s@.len() == 0 ==> r@.len() == 0,
{
    s.to_lowercase()
}

/// The SHA-256 digest of a sequence of bytes.
pub uninterp spec fn sha256(data: Seq<u8>) -> Seq<u8>;

/// `sha2::Sha256::digest`: the SHA-256 digest of any bytes, which has 32 bytes.
#[verifier::external_body]
pub(crate) fn sha256_digest(data: &[u8]) -> (r: Vec<u8>)
    ensures
        r@ == sha256(data@),
        r@.len() == 32,
{
    <sha2::Sha256 as sha2::Digest>::digest(data).to_vec()
}

/// Why there is no regular expression for a pattern.
#[derive(Clone, Copy, PartialEq, Eq, Structural, Debug)]
pub enum RegexRefusal {
    /// The pattern is no regular expression.
    Syntax,
    /// What it is compiled to is larger than the limit.
    TooLarge,
}

/// A pattern is a regular expression: `regex::RegexBuilder::build` does not answer
/// it with `regex::Error::Syntax`.
pub uninterp spec fn regex_valid(pattern: Seq<char>, case_insensitive: bool) -> bool;

/// A regular expression, built with given options, matches somewhere in a text.
pub uninterp spec fn regex_match(
    pattern: Seq<char>,
    case_insensitive: bool,
    size_limit: nat,
    dfa_size_limit: nat,
    text: Seq<char>,
) -> bool;

/// `regex::RegexBuilder::build` with `case_insensitive`, `size_limit` and
/// `dfa_size_limit`, and `regex::Regex::is_match` on each of several texts: for
/// every text whether the expression matches somewhere in it. The pattern is parsed
/// first: `regex::Error::Syntax` comes exactly where it is no regular expression,
/// which depends on the pattern and its case alone. The limit is at most a million
/// bytes, so that it is met before the bound on the number of compiled states, which
/// would count as an error of syntax. Which expressions are too large depends on
/// the machine and is not stated.
#[verifier::external_body]
pub(crate) fn regex_matches(
    pattern: &str,
    case_insensitive: bool,
    size_limit: usize,
    dfa_size_limit: usize,
    texts: &Vec<String>,
) -> (r: Result<Vec<bool>, RegexRefusal>)
    requires
        size_limit <= 1000000,
    ensures
        match r {
            Ok(flags) => regex_valid(pattern@, case_insensitive) && flags@.len() == texts@.len(),
            Err(refusal) => (refusal == RegexRefusal::Syntax) == !regex_valid(
                pattern@,
                case_insensitive,
            ),
        },
        r is Ok ==> forall|i: int|
            0 <= i < texts@.len() ==> #[trigger] r->Ok_0@[i] == regex_match(
                pattern@,
                case_insensitive,
                size_limit as nat,
                dfa_size_limit as nat,
                texts@[i]@,
            ),
{
    let mut builder = regex::RegexBuilder::new(pattern);
    builder.case_insensitive(case_insensitive);
    builder.size_limit(size_limit).dfa_size_limit(dfa_size_limit);
    match builder.build() {
        Ok(regex) => Ok(texts.iter().map(|text| regex.is_match(text)).collect()),
        Err(regex::Error::Syntax(_)) => Err(RegexRefusal::Syntax),
        Err(_) => Err(RegexRefusal::TooLarge),
    }
}

} // verus!
