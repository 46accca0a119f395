//! Requests and responses as plain values, and the responses that the gateway
//! gives by itself.
use vstd::prelude::*;
use vstd::slice::slice_to_vec;
use vstd::string::*;
use vstd::utf8;

verus! {

/// What a request asks for.
#[derive(Clone, Copy, PartialEq, Eq, Structural, Debug)]
pub enum Method {
    Get,
    Head,
    Options,
    /// Any other method.
    Other,
}

/// A header field. Names are in lower case.
pub struct Header {
    pub name: String,
    pub value: Vec<u8>,
}

/// A list of header fields as names with their values.
pub open spec fn fields(list: Seq<Header>) -> Seq<(Seq<char>, Seq<u8>)> {
    list.map_values(|h: Header| (h.name@, h.value@))
}

/// The first value of a name.
pub open spec fn first_value(list: Seq<(Seq<char>, Seq<u8>)>, name: Seq<char>) -> Option<Seq<u8>>
    decreases list.len(),
{
    if list.len() == 0 {
        None
    } else if list[0].0 == name {
        Some(list[0].1)
    } else {
        first_value(list.drop_first(), name)
    }
}

/// The header fields of a response. A field that was set again has the value
/// that was set last.
pub open spec fn header_map(list: Seq<(Seq<char>, Seq<u8>)>) -> Map<Seq<char>, Seq<u8>>
    decreases list.len(),
{
    if list.len() == 0 {
        Map::empty()
    } else {
        header_map(list.drop_last()).insert(list.last().0, list.last().1)
    }
}

/// What the body of a response is made of.
pub enum Body {
    Empty,
    Text(String),
    /// The body of the store's last answer, as it comes.
    Upstream,
}

/// The body of a response as a mathematical value.
pub enum BodyView {
    Empty,
    Text(Seq<char>),
    Upstream,
}

impl View for Body {
    type V = BodyView;

    open spec fn view(&self) -> BodyView {
        match self {
            Body::Empty => BodyView::Empty,
            Body::Text(s) => BodyView::Text(s@),
            Body::Upstream => BodyView::Upstream,
        }
    }
}

/// A response of the gateway.
pub struct Response {
    pub status: u16,
    pub headers: Vec<Header>,
    pub body: Body,
}

/// A response as a mathematical value.
#[verifier::ext_equal]
pub struct ResponseView {
    pub status: u16,
    pub headers: Map<Seq<char>, Seq<u8>>,
    pub body: BodyView,
}

impl View for Response {
    type V = ResponseView;

    open spec fn view(&self) -> ResponseView {
        ResponseView {
            status: self.status,
            headers: header_map(fields(self.headers@)),
            body: self.body@,
        }
    }
}

impl ResponseView {
    /// The response with one more header field, or with a field set anew.
    pub open spec fn with(self, name: Seq<char>, value: Seq<char>) -> ResponseView {
        self.with_bytes(name, utf8::encode_utf8(value))
    }

    /// The response with one more header field, or with a field set anew.
    pub open spec fn with_bytes(self, name: Seq<char>, value: Seq<u8>) -> ResponseView {
        ResponseView { headers: self.headers.insert(name, value), ..self }
    }

    /// The response with the fields that let any site read it.
    pub open spec fn with_cors(self) -> ResponseView {
        self.with("access-control-allow-origin"@, "*"@).with(
            "access-control-allow-methods"@,
            "GET, HEAD, OPTIONS"@,
        ).with("access-control-allow-headers"@, "*"@).with("access-control-max-age"@, "86400"@)
    }
}

/// A response without header fields.
pub open spec fn bare(status: u16, body: BodyView) -> ResponseView {
    ResponseView { status, headers: Map::empty(), body }
}

impl Response {
    /// A response without header fields.
    pub fn new(status: u16, body: Body) -> (r: Response)
        ensures
            r@ == bare(status, body@),
    {
        let r = Response { status, headers: Vec::new(), body };
        assert(fields(r.headers@) == Seq::<(Seq<char>, Seq<u8>)>::empty());
        r
    }

    /// Sets a header field to given bytes.
    pub fn insert_bytes(&mut self, name: &str, value: Vec<u8>)
        ensures
            final(self)@ == old(self)@.with_bytes(name@, value@),
    {
        let ghost before = fields(self.headers@);
        let ghost field = (name@, value@);
        self.headers.push(Header { name: name.to_owned(), value });
        assert(fields(self.headers@) == before.push(field));
        assert(before.push(field).drop_last() == before);
    }

    /// Sets a header field.
    pub fn insert(&mut self, name: &str, value: &str)
        ensures
            final(self)@ == old(self)@.with(name@, value@),
    {
        self.insert_bytes(name, slice_to_vec(value.as_bytes()));
    }

    /// The value of a header field.
    pub fn header(&self, name: &str) -> (r: Option<&Vec<u8>>)
        ensures
            match r {
                Some(value) => self@.headers.contains_key(name@) && self@.headers[name@] == value@,
                None => !self@.headers.contains_key(name@),
            },
    {
        let wanted = name.to_owned();
        let mut i: usize = self.headers.len();
        let ghost all = fields(self.headers@);
        assert(all.take(i as int) == all);
        while i > 0
            invariant
                i <= self.headers@.len(),
                wanted@ == name@,
                all == fields(self.headers@),
                self@.headers.contains_key(name@) == header_map(all.take(i as int)).contains_key(
                    name@,
                ),
                self@.headers.contains_key(name@) ==> self@.headers[name@] == header_map(
                    all.take(i as int),
                )[name@],
            decreases i,
        {
            i -= 1;
            assert(all.take(i + 1).drop_last() == all.take(i as int));
            assert(all.take(i + 1).last() == all[i as int]);
            if self.headers[i].name == wanted {
                return Some(&self.headers[i].value);
            }
        }
        None
    }
}

/// Sets the fields that let any site read a response.
pub fn with_cors(response: Response) -> (r: Response)
    ensures
        r@ == response@.with_cors(),
{
    let mut response = response;
    response.insert("access-control-allow-origin", "*");
    response.insert("access-control-allow-methods", "GET, HEAD, OPTIONS");
    response.insert("access-control-allow-headers", "*");
    response.insert("access-control-max-age", "86400");
    response
}

/// A message as plain text.
pub open spec fn plain_response(status: u16, message: Seq<char>) -> ResponseView {
    bare(status, BodyView::Text(message + "\n"@)).with("cache-control"@, "no-store"@).with(
        "content-type"@,
        "text/plain; charset=utf-8"@,
    ).with("x-content-type-options"@, "nosniff"@).with_cors()
}

/// A message as plain text, which is never cached.
pub fn plain(status: u16, message: &str) -> (r: Response)
    ensures
        r@ == plain_response(status, message@),
{
    let mut body = message.to_owned();
    body.append("\n");
    let mut response = Response::new(status, Body::Text(body));
    response.insert("cache-control", "no-store");
    response.insert("content-type", "text/plain; charset=utf-8");
    response.insert("x-content-type-options", "nosniff");
    with_cors(response)
}

/// The bytes that may stand in the value of a header field: the tab and
/// everything that is no control character.
pub open spec fn is_field_byte(b: u8) -> bool {
    (b >= 32 && b != 127) || b == 9
}

/// A text that can be the value of a header field.
pub open spec fn valid_value(s: Seq<char>) -> bool {
    forall|i: int|
        0 <= i < utf8::encode_utf8(s).len() ==> is_field_byte(#[trigger] utf8::encode_utf8(s)[i])
}

/// Whether a text can be the value of a header field.
pub fn is_valid_value(s: &str) -> (r: bool)
    ensures
        r == valid_value(s@),
{
    let bytes = s.as_bytes();
    for i in 0..bytes.len()
        invariant
            bytes@ == utf8::encode_utf8(s@),
            forall|j: int| 0 <= j < i ==> is_field_byte(#[trigger] bytes@[j]),
    {
        let b = bytes[i];
        if !((b >= 32 && b != 127) || b == 9) {
            assert(!is_field_byte(utf8::encode_utf8(s@)[i as int]));
            return false;
        }
    }
    true
}

/// Bytes that are all printable ASCII characters or tabs.
pub open spec fn is_visible(value: Seq<u8>) -> bool {
    forall|i: int| 0 <= i < value.len() ==> (32 <= #[trigger] value[i] < 127 || value[i] == 9)
}

/// The value of a header field as text, where it is printable.
pub open spec fn value_text(value: Seq<u8>) -> Option<Seq<char>> {
    if is_visible(value) {
        Some(value.map_values(|b: u8| b as char))
    } else {
        None
    }
}

/// The value of a header field as text, where it is printable.
pub fn text_of_value(value: &[u8]) -> (r: Option<String>)
    ensures
        match r {
            Some(s) => value_text(value@) == Some(s@),
            None => value_text(value@) is None,
        },
{
    let mut out = String::new();
    for i in 0..value.len()
        invariant
            forall|j: int| 0 <= j < i ==> (32 <= #[trigger] value@[j] < 127 || value@[j] == 9),
            out@ == value@.map_values(|b: u8| b as char).take(i as int),
    {
        let b = value[i];
        if !((b >= 32 && b < 127) || b == 9) {
            assert(!is_visible(value@));
            return None;
        }
        out.push(b as char);
    }
    let ghost all = value@.map_values(|b: u8| b as char);
    assert(all.take(value@.len() as int) == all);
    Some(out)
}

/// The first value of a name.
pub fn find_value<'a>(list: &'a Vec<Header>, name: &str) -> (r: Option<&'a Vec<u8>>)
    ensures
        match r {
            Some(value) => first_value(fields(list@), name@) == Some(value@),
            None => first_value(fields(list@), name@) is None,
        },
{
    let wanted = name.to_owned();
    let ghost all = fields(list@);
    assert(all.skip(0) == all);
    for i in 0..list.len()
        invariant
            all == fields(list@),
            wanted@ == name@,
            first_value(all, name@) == first_value(all.skip(i as int), name@),
    {
        assert(all.skip(i as int).drop_first() == all.skip(i + 1));
        assert(all.skip(i as int)[0] == all[i as int]);
        if list[i].name == wanted {
            return Some(&list[i].value);
        }
    }
    None
}

/// A permanent redirect.
pub open spec fn redirect_response(location: Seq<char>) -> ResponseView {
    let base = bare(308, BodyView::Empty).with("cache-control"@, "no-cache"@);
    if valid_value(location) {
        base.with("location"@, location).with_cors()
    } else {
        base.with_cors()
    }
}

/// A permanent redirect. It names its target where that can be the value of a
/// header field.
pub fn redirect(location: &str) -> (r: Response)
    ensures
        r@ == redirect_response(location@),
{
    let mut response = Response::new(308, Body::Empty);
    response.insert("cache-control", "no-cache");
    if is_valid_value(location) {
        response.insert("location", location);
    }
    with_cors(response)
}

/// The answer to a request for what is allowed.
pub fn preflight() -> (r: Response)
    ensures
        r@ == bare(204, BodyView::Empty).with_cors(),
{
    with_cors(Response::new(204, Body::Empty))
}

/// A response may be read by any site.
pub open spec fn is_open(response: ResponseView) -> bool {
    response.headers.contains_key("access-control-allow-origin"@)
        && response.headers["access-control-allow-origin"@] == utf8::encode_utf8("*"@)
}

/// Setting the fields that let any site read a response does that.
pub proof fn lemma_cors_is_open(response: ResponseView)
    ensures
        is_open(response.with_cors()),
{
    reveal_strlit("access-control-allow-origin");
    reveal_strlit("access-control-allow-methods");
    reveal_strlit("access-control-allow-headers");
    reveal_strlit("access-control-max-age");
    assert("access-control-allow-origin"@.len() == 27);
    assert("access-control-allow-methods"@.len() == 28);
    assert("access-control-allow-headers"@.len() == 28);
    assert("access-control-max-age"@.len() == 22);
}

/// A response has a header field with a given value.
pub open spec fn has_field(response: ResponseView, name: Seq<char>, value: Seq<char>) -> bool {
    response.headers.contains_key(name) && response.headers[name] == utf8::encode_utf8(value)
}

/// Of several fields of the same name the first one counts in what comes in.
pub proof fn law_first_value_counts(
    list: Seq<(Seq<char>, Seq<u8>)>,
    name: Seq<char>,
    value: Seq<u8>,
    rest: Seq<(Seq<char>, Seq<u8>)>,
)
    requires
        forall|i: int| 0 <= i < list.len() ==> (#[trigger] list[i]).0 != name,
    ensures
        first_value(list, name) is None,
        first_value(list + seq![(name, value)] + rest, name) == Some(value),
    decreases list.len(),
{
    let all = list + seq![(name, value)] + rest;
    if list.len() > 0 {
        assert(all[0] == list[0]);
        assert(all.drop_first() =~= list.drop_first() + seq![(name, value)] + rest);
        assert forall|i: int| 0 <= i < list.drop_first().len() implies (
        #[trigger] list.drop_first()[i]).0 != name by {
            assert(list.drop_first()[i] == list[i + 1]);
        }
        law_first_value_counts(list.drop_first(), name, value, rest);
    } else {
        assert(all[0] == (name, value));
    }
}

/// Of several fields of the same name the last one counts in what goes out.
pub proof fn law_last_field_counts(
    list: Seq<(Seq<char>, Seq<u8>)>,
    name: Seq<char>,
    value: Seq<u8>,
    rest: Seq<(Seq<char>, Seq<u8>)>,
)
    requires
        forall|i: int| 0 <= i < rest.len() ==> (#[trigger] rest[i]).0 != name,
    ensures
        !header_map(rest).contains_key(name),
        header_map(list + seq![(name, value)] + rest).contains_key(name),
        header_map(list + seq![(name, value)] + rest)[name] == value,
    decreases rest.len(),
{
    let all = list + seq![(name, value)] + rest;
    if rest.len() > 0 {
        let front = rest.drop_last();
        assert(all.last() == rest.last());
        assert(all.drop_last() =~= list + seq![(name, value)] + front);
        assert(rest[rest.len() - 1].0 != name);
        assert forall|i: int| 0 <= i < front.len() implies (#[trigger] front[i]).0 != name by {
            assert(front[i] == rest[i]);
        }
        law_last_field_counts(list, name, value, front);
    } else {
        assert(all.last() == (name, value));
    }
}

/// The names of the fields that let any site read a response.
pub open spec fn is_cors_name(name: Seq<char>) -> bool {
    ||| name == "access-control-allow-origin"@
    ||| name == "access-control-allow-methods"@
    ||| name == "access-control-allow-headers"@
    ||| name == "access-control-max-age"@
}

/// Opening a response to all sites sets four fields, which let any site read it for
/// a day, and leaves everything else as it is.
pub proof fn law_opening_keeps_the_response(response: ResponseView)
    ensures
        response.with_cors().status == response.status,
        response.with_cors().body == response.body,
        has_field(response.with_cors(), "access-control-allow-origin"@, "*"@),
        has_field(response.with_cors(), "access-control-allow-methods"@, "GET, HEAD, OPTIONS"@),
        has_field(response.with_cors(), "access-control-allow-headers"@, "*"@),
        has_field(response.with_cors(), "access-control-max-age"@, "86400"@),
        forall|name: Seq<char>|
            #![trigger response.with_cors().headers.contains_key(name)]
            !is_cors_name(name) ==> (response.with_cors().headers.contains_key(name)
                <==> response.headers.contains_key(name)) && (response.headers.contains_key(name)
                ==> response.with_cors().headers[name] == response.headers[name]),
{
    reveal_strlit("access-control-allow-origin");
    reveal_strlit("access-control-allow-methods");
    reveal_strlit("access-control-allow-headers");
    reveal_strlit("access-control-max-age");
    assert("access-control-allow-origin"@.len() == 27);
    assert("access-control-allow-methods"@.len() == 28);
    assert("access-control-allow-headers"@.len() == 28);
    assert("access-control-allow-methods"@[21] == 'm' && "access-control-allow-headers"@[21] == 'h');
    assert("access-control-max-age"@.len() == 22);
}

/// The names of the header fields that responses are given are all different.
pub proof fn lemma_field_names()
    ensures
        "cache-control"@ != "content-type"@,
        "cache-control"@ != "x-content-type-options"@,
        "cache-control"@ != "location"@,
        "content-type"@ != "x-content-type-options"@,
        !is_cors_name("cache-control"@),
        !is_cors_name("content-type"@),
        !is_cors_name("location"@),
        !is_cors_name("x-content-type-options"@),
        !is_cors_name("allow"@),
        "allow"@ != "cache-control"@,
        "allow"@ != "content-type"@,
        "allow"@ != "x-content-type-options"@,
{
    reveal_strlit("access-control-allow-origin");
    reveal_strlit("access-control-allow-methods");
    reveal_strlit("access-control-allow-headers");
    reveal_strlit("access-control-max-age");
    reveal_strlit("cache-control");
    reveal_strlit("content-type");
    reveal_strlit("location");
    reveal_strlit("x-content-type-options");
    reveal_strlit("allow");
    assert("cache-control"@.len() == 13 && "content-type"@.len() == 12 && "location"@.len() == 8
        && "x-content-type-options"@.len() == 22 && "allow"@.len() == 5);
    assert("access-control-allow-origin"@.len() == 27 && "access-control-allow-methods"@.len() == 28
        && "access-control-allow-headers"@.len() == 28 && "access-control-max-age"@.len() == 22);
    assert("x-content-type-options"@[0] == 'x' && "access-control-max-age"@[0] == 'a');
}

/// A message is one line of plain text, which is never kept and never taken for
/// anything else, and has no other fields but those that open it to all sites.
pub proof fn law_messages_are_plain_text(status: u16, message: Seq<char>)
    ensures
        ({
            let response = plain_response(status, message);
            &&& response.status == status
            &&& response.body == BodyView::Text(message + seq!['\n'])
            &&& has_field(response, "content-type"@, "text/plain; charset=utf-8"@)
            &&& has_field(response, "cache-control"@, "no-store"@)
            &&& has_field(response, "x-content-type-options"@, "nosniff"@)
            &&& forall|name: Seq<char>| #[trigger]
                response.headers.contains_key(name) ==> is_cors_name(name) || name
                    == "content-type"@ || name == "cache-control"@ || name
                    == "x-content-type-options"@
        }),
{
    reveal_strlit("\n");
    assert("\n"@ =~= seq!['\n']);
    lemma_field_names();
    let inner = bare(status, BodyView::Text(message + "\n"@)).with("cache-control"@, "no-store"@).with(
        "content-type"@,
        "text/plain; charset=utf-8"@,
    ).with("x-content-type-options"@, "nosniff"@);
    law_opening_keeps_the_response(inner);
    let response = plain_response(status, message);
    assert(response == inner.with_cors());
    assert(response.headers.contains_key("content-type"@));
    assert(response.headers.contains_key("cache-control"@));
    assert(response.headers.contains_key("x-content-type-options"@));
}

/// A redirect is permanent, is always checked again, and names its target, where
/// that can be the value of a header field. It has no body.
pub proof fn law_redirects_name_their_target(location: Seq<char>)
    ensures
        redirect_response(location).status == 308,
        redirect_response(location).body is Empty,
        has_field(redirect_response(location), "cache-control"@, "no-cache"@),
        valid_value(location) ==> has_field(redirect_response(location), "location"@, location),
        !valid_value(location) ==> !redirect_response(location).headers.contains_key("location"@),
{
    lemma_field_names();
    let base = bare(308, BodyView::Empty).with("cache-control"@, "no-cache"@);
    law_opening_keeps_the_response(base);
    law_opening_keeps_the_response(base.with("location"@, location));
    let response = redirect_response(location);
    assert(response.headers.contains_key("cache-control"@));
    assert(response.headers.contains_key("location"@) <==> valid_value(location));
}

/// Printable ASCII text is read from a header field as it stands, and can stand in
/// one.
pub proof fn law_printable_text_stands_in_fields(s: Seq<char>)
    requires
        forall|i: int| 0 <= i < s.len() ==> ' ' <= #[trigger] s[i] <= '~' || s[i] == '\t',
    ensures
        value_text(utf8::encode_utf8(s)) == Some(s),
        valid_value(s),
{
    assert forall|i: int| 0 <= i < s.len() implies '\0' <= #[trigger] s[i] <= '\u{7f}' by {}
    assert(utf8::is_ascii_chars(s));
    utf8::is_ascii_chars_encode_utf8(s);
    let bytes = utf8::encode_utf8(s);
    assert forall|i: int| 0 <= i < bytes.len() implies (32 <= #[trigger] bytes[i] < 127 || bytes[i]
        == 9) by {
        assert(bytes[i] == s[i] as u8);
    }
    assert(bytes.map_values(|b: u8| b as char) =~= s);
}

/// A value with a byte that is neither printable ASCII nor a tab is not read as
/// text.
pub proof fn law_other_bytes_are_no_text(value: Seq<u8>, i: int)
    requires
        0 <= i < value.len(),
        (value[i] < 32 && value[i] != 9) || value[i] > 126,
    ensures
        value_text(value) is None,
{
}

/// The bytes of a character that is not ASCII are not ASCII either.
proof fn lemma_high_bytes(v: u32)
    ensures
        v <= 0x7f ==> utf8::encode_scalar(v) == seq![v as u8],
        v > 0x7f ==> forall|i: int|
            0 <= i < utf8::encode_scalar(v).len() ==> #[trigger] utf8::encode_scalar(v)[i] >= 128,
        utf8::encode_scalar(v).len() > 0,
{
    assert(forall|x: u8| #[trigger] (0x80u8 | x) >= 128) by (bit_vector);
    assert(forall|x: u8| #[trigger] (0xc0u8 | x) >= 128) by (bit_vector);
    assert(forall|x: u8| #[trigger] (0xe0u8 | x) >= 128) by (bit_vector);
    assert(forall|x: u8| #[trigger] (0xf0u8 | x) >= 128) by (bit_vector);
    if v <= 0x7f {
        assert((v & 0x7f) as u8 == v as u8) by (bit_vector)
            requires
                v <= 0x7f,
        ;
    }
}

/// The bytes of a character can stand in a header field where it is no control
/// character, and the first one cannot where it is one.
proof fn lemma_char_bytes(c: char)
    ensures
        utf8::encode_scalar(c as u32).len() > 0,
        (' ' <= c && c != '\u{7f}') || c == '\t' ==> forall|i: int|
            0 <= i < utf8::encode_scalar(c as u32).len() ==> is_field_byte(
                #[trigger] utf8::encode_scalar(c as u32)[i],
            ),
        !((' ' <= c && c != '\u{7f}') || c == '\t') ==> !is_field_byte(
            utf8::encode_scalar(c as u32)[0],
        ),
{
    lemma_high_bytes(c as u32);
    assert(c as u32 as int == c as int);
}

/// A text can be the value of a header field exactly where it holds no control
/// character but the tab.
pub proof fn law_values_hold_no_control_characters(s: Seq<char>)
    ensures
        valid_value(s) <==> forall|i: int|
            0 <= i < s.len() ==> (' ' <= #[trigger] s[i] && s[i] != '\u{7f}') || s[i] == '\t',
    decreases s.len(),
{
    let bytes = utf8::encode_utf8(s);
    if s.len() > 0 {
        let rest = s.drop_first();
        let tail = utf8::encode_utf8(rest);
        let c = s[0];
        let head = utf8::encode_scalar(c as u32);
        law_values_hold_no_control_characters(rest);
        lemma_char_bytes(c);
        assert(bytes == head + tail);
        assert forall|i: int| 0 <= i < rest.len() implies #[trigger] rest[i] == s[i + 1] by {}
        let fine = (' ' <= c && c != '\u{7f}') || c == '\t';
        if valid_value(s) {
            assert forall|i: int| 0 <= i < tail.len() implies is_field_byte(#[trigger] tail[i]) by {
                assert(bytes[head.len() + i] == tail[i]);
            }
            assert(valid_value(rest));
            assert(bytes[0] == head[0]);
            assert(is_field_byte(bytes[0]));
            assert(fine);
            assert forall|i: int| 0 <= i < s.len() implies (' ' <= #[trigger] s[i] && s[i]
                != '\u{7f}') || s[i] == '\t' by {
                if i > 0 {
                    assert(rest[i - 1] == s[i]);
                }
            }
        }
        if forall|i: int|
            0 <= i < s.len() ==> (' ' <= #[trigger] s[i] && s[i] != '\u{7f}') || s[i] == '\t' {
            assert((' ' <= s[0] && s[0] != '\u{7f}') || s[0] == '\t');
            assert forall|i: int| 0 <= i < rest.len() implies (' ' <= #[trigger] rest[i] && rest[i]
                != '\u{7f}') || rest[i] == '\t' by {
                assert(rest[i] == s[i + 1]);
            }
            assert(valid_value(rest));
            assert forall|i: int| 0 <= i < bytes.len() implies is_field_byte(
                #[trigger] bytes[i],
            ) by {
                if i < head.len() {
                    assert(bytes[i] == head[i]);
                } else {
                    assert(bytes[i] == tail[i - head.len()]);
                }
            }
        }
    }
}

} // verus!
