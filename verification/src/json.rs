//! JSON values: reading members and writing the compact form.
use vstd::prelude::*;
use vstd::string::*;

use crate::number;
use crate::number::parse_text;
use crate::text;
use crate::trusted::json_string;

verus! {

/// A JSON value. A number is kept as the numeral that it was written with, and
/// the members of an object in the order in which they are written. In a
/// well-formed value that is the order of their keys, and no key comes twice.
pub enum Json {
    Null,
    Bool(bool),
    Number(String),
    Text(String),
    List(Vec<Json>),
    Object(Vec<(String, Json)>),
}

/// A JSON value as a mathematical tree.
pub enum JsonView {
    Null,
    Bool(bool),
    Number(Seq<char>),
    Text(Seq<char>),
    List(Seq<JsonView>),
    Object(Seq<MemberView>),
}

/// A member of an object as a mathematical value.
pub struct MemberView {
    pub key: Seq<char>,
    pub value: JsonView,
}

impl View for Json {
    type V = JsonView;

    open spec fn view(&self) -> JsonView
        decreases self,
    {
        match self {
            Json::Null => JsonView::Null,
            Json::Bool(b) => JsonView::Bool(*b),
            Json::Number(s) => JsonView::Number(s@),
            Json::Text(s) => JsonView::Text(s@),
            Json::List(v) => JsonView::List(
                Seq::new(
                    v@.len(),
                    |i: int|
                        if 0 <= i < v@.len() {
                            v@[i].view()
                        } else {
                            JsonView::Null
                        },
                ),
            ),
            Json::Object(v) => JsonView::Object(
                Seq::new(
                    v@.len(),
                    |i: int|
                        if 0 <= i < v@.len() {
                            MemberView { key: v@[i].0@, value: v@[i].1.view() }
                        } else {
                            MemberView { key: Seq::empty(), value: JsonView::Null }
                        },
                ),
            ),
        }
    }
}

/// What stands for a character in a JSON string.
pub open spec fn string_escape(c: char) -> Seq<char> {
    if c == '"' || c == '\\' {
        seq!['\\', c]
    } else if c == '\u{8}' {
        seq!['\\', 'b']
    } else if c == '\t' {
        seq!['\\', 't']
    } else if c == '\n' {
        seq!['\\', 'n']
    } else if c == '\u{c}' {
        seq!['\\', 'f']
    } else if c == '\r' {
        seq!['\\', 'r']
    } else if c <= '\u{1f}' {
        seq!['\\', 'u', '0', '0'].push(number::hex_lower(c as int / 16)).push(
            number::hex_lower(c as int % 16),
        )
    } else {
        seq![c]
    }
}

/// A text with its escapes in a JSON string.
pub open spec fn string_escaped(s: Seq<char>) -> Seq<char>
    decreases s.len(),
{
    if s.len() == 0 {
        Seq::empty()
    } else {
        string_escaped(s.drop_last()) + string_escape(s.last())
    }
}

/// A text as a JSON string.
pub open spec fn quoted(s: Seq<char>) -> Seq<char> {
    seq!['"'] + string_escaped(s) + seq!['"']
}

/// The value of the first member with a given key; null where there is none.
pub open spec fn member(members: Seq<MemberView>, key: Seq<char>) -> JsonView
    decreases members.len(),
{
    if members.len() == 0 {
        JsonView::Null
    } else if members[0].key == key {
        members[0].value
    } else {
        member(members.drop_first(), key)
    }
}

/// Members in the order of their keys, of which none comes twice.
pub open spec fn ordered(members: Seq<MemberView>) -> bool {
    forall|i: int, j: int|
        0 <= i < j < members.len() ==> text::less(
            (#[trigger] members[i]).key,
            (#[trigger] members[j]).key,
        )
}

impl JsonView {
    /// Every object in the value has its members in the order of their keys, and no
    /// key twice.
    pub open spec fn well_formed(self) -> bool
        decreases self,
    {
        match self {
            JsonView::List(items) => forall|i: int|
                0 <= i < items.len() ==> (#[trigger] items[i]).well_formed(),
            JsonView::Object(members) => ordered(members) && forall|i: int|
                0 <= i < members.len() ==> (#[trigger] members[i]).value.well_formed(),
            _ => true,
        }
    }

    /// The member with a given key. It is null where the value is no object or
    /// has no such member.
    pub open spec fn get(self, key: Seq<char>) -> JsonView {
        match self {
            JsonView::Object(members) => member(members, key),
            _ => JsonView::Null,
        }
    }

    /// The text of a string.
    pub open spec fn as_text(self) -> Option<Seq<char>> {
        match self {
            JsonView::Text(s) => Some(s),
            _ => None,
        }
    }

    /// The text of a member; empty where it is no string.
    pub open spec fn text(self, key: Seq<char>) -> Seq<char> {
        match self.get(key) {
            JsonView::Text(s) => s,
            _ => Seq::empty(),
        }
    }

    /// The member with a given key is `true`.
    pub open spec fn flag(self, key: Seq<char>) -> bool {
        self.get(key) == JsonView::Bool(true)
    }

    /// The elements of a list; none where the value is no list.
    pub open spec fn elements(self) -> Seq<JsonView> {
        match self {
            JsonView::List(items) => items,
            _ => Seq::empty(),
        }
    }

    /// The number, where the value is a natural number of at most 64 bits.
    pub open spec fn as_number(self) -> Option<nat> {
        match self {
            JsonView::Number(s) => if s.len() > 0 && s[0] != '+' {
                number::parsed_number(s, u64::MAX as nat)
            } else {
                None
            },
            _ => None,
        }
    }

    /// The compact form of a value: no white space, and strings quoted.
    pub open spec fn encoded(self) -> Seq<char>
        decreases self,
    {
        match self {
            JsonView::Null => "null"@,
            JsonView::Bool(b) => if b {
                "true"@
            } else {
                "false"@
            },
            JsonView::Number(s) => s,
            JsonView::Text(s) => quoted(s),
            JsonView::List(items) => "["@ + text::join(encoded_items(items), ","@) + "]"@,
            JsonView::Object(members) => "{"@ + text::join(encoded_members(members), ","@) + "}"@,
        }
    }
}

/// The compact forms of several values.
pub open spec fn encoded_items(items: Seq<JsonView>) -> Seq<Seq<char>>
    decreases items,
{
    if items.len() == 0 {
        Seq::empty()
    } else {
        encoded_items(items.drop_last()).push(items[items.len() - 1].encoded())
    }
}

/// The compact forms of several members: the key as a string, a colon and the
/// value.
pub open spec fn encoded_members(members: Seq<MemberView>) -> Seq<Seq<char>>
    decreases members,
{
    if members.len() == 0 {
        Seq::empty()
    } else {
        encoded_members(members.drop_last()).push(
            quoted(members[members.len() - 1].key) + ":"@ + members[members.len()
                - 1].value.encoded(),
        )
    }
}

/// The views of several values.
pub open spec fn json_views(v: Seq<Json>) -> Seq<JsonView> {
    v.map_values(|j: Json| j@)
}

impl Json {
    /// The member with a given key, if the value is an object that has it.
    pub fn find(&self, key: &str) -> (r: Option<&Json>)
        ensures
            match r {
                Some(value) => self@.get(key@) == value@,
                None => self@.get(key@) == JsonView::Null,
            },
    {
        match self {
            Json::Object(v) => {
                let wanted = key.to_owned();
                let ghost all = self@->Object_0;
                assert(all.skip(0) == all);
                for i in 0..v.len()
                    invariant
                        all.len() == v@.len(),
                        wanted@ == key@,
                        forall|k: int|
                            0 <= k < v@.len() ==> #[trigger] all[k] == (MemberView {
                                key: v@[k].0@,
                                value: v@[k].1@,
                            }),
                        member(all, key@) == member(all.skip(i as int), key@),
                        self@ == JsonView::Object(all),
                {
                    assert(all.skip(i as int).drop_first() == all.skip(i + 1));
                    assert(all.skip(i as int)[0] == all[i as int]);
                    if v[i].0 == wanted {
                        return Some(&v[i].1);
                    }
                }
                None
            },
            _ => None,
        }
    }

    /// The text of a string.
    pub fn as_str(&self) -> (r: Option<&str>)
        ensures
            match r {
                Some(s) => self@ == JsonView::Text(s@),
                None => self@.as_text() is None,
            },
    {
        match self {
            Json::Text(s) => Some(s.as_str()),
            _ => None,
        }
    }

    /// The text of a member; empty where it is no string.
    pub fn text(&self, key: &str) -> (r: &str)
        ensures
            r@ == self@.text(key@),
    {
        match self.find(key) {
            Some(Json::Text(s)) => s.as_str(),
            _ => {
                proof {
                    reveal_strlit("");
                }
                assert(""@ == Seq::<char>::empty());
                ""
            },
        }
    }

    /// Whether the member with a given key is `true`.
    pub fn flag(&self, key: &str) -> (r: bool)
        ensures
            r == self@.flag(key@),
    {
        match self.find(key) {
            Some(Json::Bool(b)) => *b,
            _ => false,
        }
    }

    /// The elements of the member with a given key, if it is a list.
    pub fn list(&self, key: &str) -> (r: Option<&Vec<Json>>)
        ensures
            match r {
                Some(v) => self@.get(key@) == JsonView::List(json_views(v@)),
                None => !(self@.get(key@) is List),
            },
    {
        match self.find(key) {
            Some(Json::List(v)) => {
                assert(self@.get(key@)->List_0 =~= json_views(v@));
                Some(v)
            },
            _ => None,
        }
    }

    /// The number, where the value is a natural number of at most 64 bits.
    pub fn as_number(&self) -> (r: Option<u64>)
        ensures
            match r {
                Some(n) => self@.as_number() == Some(n as nat),
                None => self@.as_number() is None,
            },
    {
        match self {
            Json::Number(s) => {
                let chars = text::to_chars(s.as_str());
                if chars.len() == 0 || chars[0] == '+' {
                    return None;
                }
                parse_text(s.as_str(), u64::MAX)
            },
            _ => None,
        }
    }

    /// The compact form of a value: no white space, and strings quoted.
    pub fn encode(&self) -> (r: String)
        ensures
            r@ == self@.encoded(),
        decreases self@, 1int,
    {
        match self {
            Json::Null => "null".to_owned(),
            Json::Bool(b) => if *b {
                "true".to_owned()
            } else {
                "false".to_owned()
            },
            Json::Number(s) => s.clone(),
            Json::Text(s) => json_string(s.as_str()),
            Json::List(v) => {
                assert(self@->List_0 =~= json_views(v@));
                encode_list(v)
            },
            Json::Object(v) => {
                let mut parts: Vec<String> = Vec::new();
                let ghost members = self@->Object_0;
                assert(members.take(0) == Seq::<MemberView>::empty());
                for i in 0..v.len()
                    invariant
                        members.len() == v@.len(),
                        self@ == JsonView::Object(members),
                        forall|k: int|
                            0 <= k < v@.len() ==> #[trigger] members[k] == (MemberView {
                                key: v@[k].0@,
                                value: v@[k].1@,
                            }),
                        text::views(parts@) == encoded_members(members.take(i as int)),
                {
                    let ghost before = text::views(parts@);
                    let mut part = json_string(v[i].0.as_str());
                    part.append(":");
                    assert(decreases_to!(self@ => self@->Object_0[i as int].value));
                    part.append(v[i].1.encode().as_str());
                    let ghost written = part@;
                    parts.push(part);
                    let ghost next = members.take(i + 1);
                    assert(next.drop_last() == members.take(i as int));
                    assert(next[i as int] == members[i as int]);
                    assert(text::views(parts@) == before.push(written));
                }
                assert(members.take(members.len() as int) == members);
                let mut out = "{".to_owned();
                out.append(text::join_texts(parts.as_slice(), ",").as_str());
                out.append("}");
                out
            },
        }
    }
}

/// The compact form of a list of values.
pub fn encode_list(items: &Vec<Json>) -> (r: String)
    ensures
        r@ == JsonView::List(json_views(items@)).encoded(),
    decreases JsonView::List(json_views(items@)), 0int,
{
    let mut parts: Vec<String> = Vec::new();
    let ghost all = json_views(items@);
    assert(all.take(0) == Seq::<JsonView>::empty());
    for i in 0..items.len()
        invariant
            all == json_views(items@),
            text::views(parts@) == encoded_items(all.take(i as int)),
    {
        let ghost before = text::views(parts@);
        assert(items@[i as int]@ == all[i as int]);
        assert(decreases_to!(JsonView::List(all) => JsonView::List(all)->List_0[i as int]));
        let part = items[i].encode();
        parts.push(part);
        let ghost next = all.take(i + 1);
        assert(next.drop_last() == all.take(i as int));
        assert(next[i as int] == items@[i as int]@);
        assert(text::views(parts@) == before.push(next[i as int].encoded()));
    }
    assert(all.take(all.len() as int) == all);
    let mut out = "[".to_owned();
    out.append(text::join_texts(parts.as_slice(), ",").as_str());
    out.append("]");
    out
}

/// Every member of an object in order is the one that its key finds.
pub proof fn law_members_are_found_by_their_keys(members: Seq<MemberView>, i: int)
    requires
        ordered(members),
        0 <= i < members.len(),
    ensures
        JsonView::Object(members).get(members[i].key) == members[i].value,
    decreases i,
{
    if i > 0 {
        let rest = members.drop_first();
        text::lemma_less_irreflexive(members[i].key);
        assert(text::less(members[0].key, members[i].key));
        assert forall|a: int, b: int| 0 <= a < b < rest.len() implies text::less(
            (#[trigger] rest[a]).key,
            (#[trigger] rest[b]).key,
        ) by {
            assert(rest[a] == members[a + 1] && rest[b] == members[b + 1]);
        }
        law_members_are_found_by_their_keys(rest, i - 1);
        assert(rest[i - 1] == members[i]);
    }
}

/// The last of some members in order is among others in order only as their last,
/// where those hold no member that is not among the first.
proof fn lemma_same_last(a: Seq<MemberView>, b: Seq<MemberView>)
    requires
        ordered(a),
        ordered(b),
        a.len() > 0,
        b.len() > 0,
        forall|m: MemberView| a.contains(m) <==> b.contains(m),
    ensures
        a.last() == b.last(),
{
    assert(a[a.len() - 1] == a.last() && b[b.len() - 1] == b.last());
    assert(b.contains(a.last()) && a.contains(b.last()));
    let i = choose|i: int| 0 <= i < b.len() && b[i] == a.last();
    let k = choose|k: int| 0 <= k < a.len() && a[k] == b.last();
    if i < b.len() - 1 && k < a.len() - 1 {
        text::lemma_less_total(a.last().key, b.last().key);
    }
}

/// The members of an object in order stay the same without the last one.
proof fn lemma_without_last(a: Seq<MemberView>, m: MemberView)
    requires
        ordered(a),
        a.len() > 0,
    ensures
        ordered(a.drop_last()),
        a.drop_last().contains(m) <==> a.contains(m) && m != a.last(),
{
    let front = a.drop_last();
    assert forall|i: int, j: int| 0 <= i < j < front.len() implies text::less(
        (#[trigger] front[i]).key,
        (#[trigger] front[j]).key,
    ) by {
        assert(front[i] == a[i] && front[j] == a[j]);
    }
    if front.contains(m) {
        let i = choose|i: int| 0 <= i < front.len() && front[i] == m;
        assert(a[i] == m);
        text::lemma_less_irreflexive(m.key);
        assert(text::less(a[i].key, a[a.len() - 1].key));
    }
    if a.contains(m) && m != a.last() {
        let i = choose|i: int| 0 <= i < a.len() && a[i] == m;
        assert(front[i] == m);
    }
}

/// Objects in order that have the same members are the same value, and so are
/// written the same.
pub proof fn law_same_members_make_the_same_object(a: Seq<MemberView>, b: Seq<MemberView>)
    requires
        ordered(a),
        ordered(b),
        forall|m: MemberView| a.contains(m) <==> b.contains(m),
    ensures
        a == b,
        JsonView::Object(a).encoded() == JsonView::Object(b).encoded(),
    decreases a.len(),
{
    if a.len() == 0 {
        if b.len() > 0 {
            assert(b.contains(b[0]));
        }
        assert(a =~= b);
    } else {
        assert(a.contains(a[0]));
        lemma_same_last(a, b);
        assert forall|m: MemberView| a.drop_last().contains(m) <==> b.drop_last().contains(m) by {
            lemma_without_last(a, m);
            lemma_without_last(b, m);
        }
        lemma_without_last(a, a.last());
        lemma_without_last(b, b.last());
        law_same_members_make_the_same_object(a.drop_last(), b.drop_last());
        assert(a =~= a.drop_last().push(a.last()));
        assert(b =~= b.drop_last().push(b.last()));
    }
}

/// The compact forms of values stand in the order of the values.
proof fn lemma_encoded_items(items: Seq<JsonView>)
    ensures
        encoded_items(items) == items.map_values(|item: JsonView| item.encoded()),
    decreases items.len(),
{
    if items.len() > 0 {
        lemma_encoded_items(items.drop_last());
        assert(items.map_values(|item: JsonView| item.encoded()) =~= items.drop_last().map_values(
            |item: JsonView| item.encoded(),
        ).push(items.last().encoded()));
    } else {
        assert(encoded_items(items) =~= items.map_values(|item: JsonView| item.encoded()));
    }
}

/// The compact forms of members stand in the order of the members.
proof fn lemma_encoded_members(members: Seq<MemberView>)
    ensures
        encoded_members(members) == members.map_values(
            |m: MemberView| quoted(m.key) + ":"@ + m.value.encoded(),
        ),
    decreases members.len(),
{
    let written = |m: MemberView| quoted(m.key) + ":"@ + m.value.encoded();
    if members.len() > 0 {
        lemma_encoded_members(members.drop_last());
        assert(members.map_values(written) =~= members.drop_last().map_values(written).push(
            written(members.last()),
        ));
    } else {
        assert(encoded_members(members) =~= members.map_values(written));
    }
}

/// The compact form of a value has no white space: the elements of a list stand in
/// brackets with commas between them, and so do the members of an object in braces,
/// each a quoted key, a colon and a value. Numbers stand as they were written.
pub proof fn law_values_are_written_compactly(
    items: Seq<JsonView>,
    members: Seq<MemberView>,
    s: Seq<char>,
)
    ensures
        JsonView::List(items).encoded() == seq!['['] + text::join(
            items.map_values(|item: JsonView| item.encoded()),
            seq![','],
        ) + seq![']'],
        JsonView::Object(members).encoded() == seq!['{'] + text::join(
            members.map_values(|m: MemberView| quoted(m.key) + seq![':'] + m.value.encoded()),
            seq![','],
        ) + seq!['}'],
        JsonView::Null.encoded() == seq!['n', 'u', 'l', 'l'],
        JsonView::Bool(true).encoded() == seq!['t', 'r', 'u', 'e'],
        JsonView::Bool(false).encoded() == seq!['f', 'a', 'l', 's', 'e'],
        JsonView::Number(s).encoded() == s,
        JsonView::Text(s).encoded() == quoted(s),
{
    lemma_encoded_items(items);
    lemma_encoded_members(members);
    reveal_strlit("[");
    reveal_strlit("]");
    reveal_strlit("{");
    reveal_strlit("}");
    reveal_strlit(",");
    reveal_strlit(":");
    reveal_strlit("null");
    reveal_strlit("true");
    reveal_strlit("false");
    assert("["@ =~= seq!['[']);
    assert("]"@ =~= seq![']']);
    assert("{"@ =~= seq!['{']);
    assert("}"@ =~= seq!['}']);
    assert(","@ =~= seq![',']);
    assert(":"@ =~= seq![':']);
    assert("null"@ =~= seq!['n', 'u', 'l', 'l']);
    assert("true"@ =~= seq!['t', 'r', 'u', 'e']);
    assert("false"@ =~= seq!['f', 'a', 'l', 's', 'e']);
    assert(members.map_values(|m: MemberView| quoted(m.key) + ":"@ + m.value.encoded())
        =~= members.map_values(|m: MemberView| quoted(m.key) + seq![':'] + m.value.encoded()));
}

/// The number that a hexadecimal digit in lower case stands for.
pub open spec fn hex_digit(c: char) -> int {
    if '0' <= c <= '9' {
        c as int - 48
    } else {
        c as int - 87
    }
}

/// What a JSON string reads as, without its quotes.
pub open spec fn unescaped(s: Seq<char>) -> Seq<char>
    decreases s.len(),
{
    if s.len() == 0 {
        Seq::empty()
    } else if s[0] != '\\' || s.len() == 1 {
        seq![s[0]] + unescaped(s.drop_first())
    } else if s[1] == 'u' && s.len() >= 6 {
        seq![
            (hex_digit(s[2]) * 4096 + hex_digit(s[3]) * 256 + hex_digit(s[4]) * 16 + hex_digit(
                s[5],
            )) as char,
        ] + unescaped(s.skip(6))
    } else {
        seq![
            if s[1] == 'b' {
                '\u{8}'
            } else if s[1] == 't' {
                '\t'
            } else if s[1] == 'n' {
                '\n'
            } else if s[1] == 'f' {
                '\u{c}'
            } else if s[1] == 'r' {
                '\r'
            } else {
                s[1]
            },
        ] + unescaped(s.skip(2))
    }
}

/// What stands for a character in a JSON string is read as that character, whatever
/// follows.
proof fn lemma_escape_is_read(c: char, rest: Seq<char>)
    ensures
        unescaped(string_escape(c) + rest) == seq![c] + unescaped(rest),
{
    let e = string_escape(c);
    let s = e + rest;
    assert(s.skip(e.len() as int) =~= rest);
    if c == '"' || c == '\\' || c == '\u{8}' || c == '\t' || c == '\n' || c == '\u{c}' || c == '\r' {
        assert(s[0] == '\\' && s[1] == e[1]);
        assert(s.skip(2) =~= rest);
    } else if c <= '\u{1f}' {
        let high = number::hex_lower(c as int / 16);
        let low = number::hex_lower(c as int % 16);
        assert(s[0] == '\\' && s[1] == 'u' && s[2] == '0' && s[3] == '0' && s[4] == high && s[5]
            == low);
        assert(0 <= c as int / 16 < 2 && 0 <= c as int % 16 < 16);
        assert(hex_digit(high) == c as int / 16);
        assert(hex_digit(low) == c as int % 16);
        assert(hex_digit('0') == 0);
        assert(s.skip(6) =~= rest);
        assert((c as int / 16) * 16 + c as int % 16 == c as int);
    } else {
        assert(s[0] == c);
        assert(s.drop_first() =~= rest);
    }
}

proof fn lemma_escaped_is_read(s: Seq<char>, rest: Seq<char>)
    ensures
        unescaped(string_escaped(s) + rest) == s + unescaped(rest),
    decreases s.len(),
{
    if s.len() == 0 {
        assert(string_escaped(s) + rest =~= rest);
        assert(s + unescaped(rest) =~= unescaped(rest));
    } else {
        let front = s.drop_last();
        let last = string_escape(s.last());
        assert(string_escaped(s) + rest =~= string_escaped(front) + (last + rest));
        lemma_escaped_is_read(front, last + rest);
        lemma_escape_is_read(s.last(), rest);
        assert(front + (seq![s.last()] + unescaped(rest)) =~= s + unescaped(rest));
    }
}

/// A text as a JSON string stands in quotes and reads as itself; between the quotes
/// there is neither another quote without a backslash before it nor any control
/// character.
pub proof fn law_strings_read_as_their_text(s: Seq<char>)
    ensures
        quoted(s).len() >= 2,
        quoted(s)[0] == '"',
        quoted(s).last() == '"',
        unescaped(quoted(s).subrange(1, quoted(s).len() - 1)) == s,
        forall|i: int| 0 <= i < quoted(s).len() ==> #[trigger] quoted(s)[i] >= ' ',
{
    let inner = quoted(s).subrange(1, quoted(s).len() - 1);
    assert(inner =~= string_escaped(s));
    lemma_escaped_is_read(s, Seq::empty());
    assert(string_escaped(s) + Seq::<char>::empty() =~= string_escaped(s));
    assert(s + unescaped(Seq::<char>::empty()) =~= s);
    lemma_no_controls(s);
    assert forall|i: int| 0 <= i < quoted(s).len() implies #[trigger] quoted(s)[i] >= ' ' by {
        if 1 <= i < quoted(s).len() - 1 {
            assert(quoted(s)[i] == string_escaped(s)[i - 1]);
        }
    }
}

proof fn lemma_escape_is_visible(c: char)
    ensures
        forall|k: int| 0 <= k < string_escape(c).len() ==> #[trigger] string_escape(c)[k] >= ' ',
{
    if c <= '\u{1f}' {
        assert(0 <= c as int / 16 < 2 && 0 <= c as int % 16 < 16);
        assert(number::hex_lower(c as int / 16) >= ' ');
        assert(number::hex_lower(c as int % 16) >= ' ');
    }
}

proof fn lemma_no_controls(s: Seq<char>)
    ensures
        forall|i: int| 0 <= i < string_escaped(s).len() ==> #[trigger] string_escaped(s)[i] >= ' ',
    decreases s.len(),
{
    if s.len() > 0 {
        lemma_no_controls(s.drop_last());
        let front = string_escaped(s.drop_last());
        let last = string_escape(s.last());
        let all = string_escaped(s);
        lemma_escape_is_visible(s.last());
        assert forall|i: int| 0 <= i < all.len() implies #[trigger] all[i] >= ' ' by {
            if i < front.len() {
                assert(all[i] == front[i]);
            } else {
                assert(all[i] == last[i - front.len()]);
            }
        }
    }
}

/// Of several members with the same key the first one is found, and a key that no
/// member has finds nothing; values that are no objects have no members.
pub proof fn law_first_members_are_found(
    before: Seq<MemberView>,
    found: MemberView,
    after: Seq<MemberView>,
)
    requires
        forall|i: int| 0 <= i < before.len() ==> (#[trigger] before[i]).key != found.key,
    ensures
        JsonView::Object(before + seq![found] + after).get(found.key) == found.value,
        JsonView::Object(before).get(found.key) == JsonView::Null,
    decreases before.len(),
{
    let all = before + seq![found] + after;
    if before.len() > 0 {
        let rest = before.drop_first();
        assert(all[0] == before[0]);
        assert(all.drop_first() =~= rest + seq![found] + after);
        assert forall|i: int| 0 <= i < rest.len() implies (#[trigger] rest[i]).key != found.key by {
            assert(rest[i] == before[i + 1]);
        }
        law_first_members_are_found(rest, found, after);
    } else {
        assert(all[0] == found);
    }
}

/// What is read of a member: the text of a string, or nothing where it is none;
/// whether it is `true`; the elements of a list, or none; and of a number without
/// sign its value, where that has at most 64 bits.
pub proof fn law_members_are_read(value: JsonView, key: Seq<char>)
    ensures
        value.get(key) is Text ==> value.text(key) == value.get(key)->Text_0,
        !(value.get(key) is Text) ==> value.text(key) == Seq::<char>::empty(),
        value.flag(key) <==> value.get(key) is Bool && value.get(key)->Bool_0,
        value is List ==> value.elements() == value->List_0,
        !(value is List) ==> value.elements() == Seq::<JsonView>::empty(),
        !(value is Object) ==> value.get(key) is Null,
        !(value is Number) ==> value.as_number() is None,
        value is Number && number::all_digits(value->Number_0) && value->Number_0.len() > 0
            ==> value.as_number() == if number::digits_value(value->Number_0) <= u64::MAX {
            Some(number::digits_value(value->Number_0))
        } else {
            None
        },
        value is Number && !number::all_digits(value->Number_0) ==> value.as_number() is None,
{
    if value is Number {
        let s = value->Number_0;
        if number::all_digits(s) && s.len() > 0 {
            assert('0' <= s[0] <= '9');
        }
    }
}

} // verus!
