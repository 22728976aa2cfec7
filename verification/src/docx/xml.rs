//! XML documents as sequences of plain-value events, read with quick-xml.
//!
//! quick-xml tokenizes; the tokens are named by a function of the bytes
//! alone. Everything that turns them into events (references,
//! attributes) and reads the events (attribute lookup, on/off values,
//! skipping an element) is verified.

use vstd::prelude::*;
use quick_xml::Reader;
use quick_xml::events::{BytesRef, Event};
use quick_xml::events::attributes::Attributes;
use crate::text::{str_eq, push_char, append_str, is_scalar};

verus! {

#[verifier::external_type_specification]
#[verifier::external_body]
pub struct ExEvent<'a>(Event<'a>);

/// The XML could not be read: malformed markup or attributes.
#[derive(Debug, Clone, Copy, PartialEq, Eq)]
pub struct XmlError;

/// One attribute: its qualified name as written and its value with
/// references replaced.
#[derive(Debug, Clone, PartialEq, Eq)]
pub struct XmlAttr {
    pub key: String,
    pub value: String,
}

/// A start or empty-element tag: its local name (the qualified name
/// without its prefix) and its attributes in document order.
#[derive(Debug, Clone, PartialEq, Eq)]
pub struct XmlTag {
    pub name: String,
    pub attrs: Vec<XmlAttr>,
}

/// One event of an XML document.
#[derive(Debug, Clone, PartialEq, Eq)]
pub enum XmlEvent {
    /// `<name ...>`
    Start(XmlTag),
    /// `<name .../>`
    Empty(XmlTag),
    /// `</name>`, by local name.
    End(String),
    /// Character data, or the text that a reference stands for.
    Text(String),
    /// Comments, declarations and the like.
    Other,
    /// The end of the document.
    Eof,
}

/// One quick-xml event in plain values: a tag by its local name and its
/// raw attribute text, an end tag by its local name, character data as
/// read, a reference by its name.
#[derive(Debug, Clone)]
pub enum RawToken {
    Start(String, String),
    Empty(String, String),
    End(String),
    Text(String),
    Ref(String),
    Other,
    Eof,
}

/// A token as plain values.
pub ghost enum TokenModel {
    Start(Seq<char>, Seq<char>),
    Empty(Seq<char>, Seq<char>),
    End(Seq<char>),
    Text(Seq<char>),
    Ref(Seq<char>),
    Other,
    Eof,
}

pub open spec fn token_model(t: RawToken) -> TokenModel {
    match t {
        RawToken::Start(n, a) => TokenModel::Start(n@, a@),
        RawToken::Empty(n, a) => TokenModel::Empty(n@, a@),
        RawToken::End(n) => TokenModel::End(n@),
        RawToken::Text(s) => TokenModel::Text(s@),
        RawToken::Ref(n) => TokenModel::Ref(n@),
        RawToken::Other => TokenModel::Other,
        RawToken::Eof => TokenModel::Eof,
    }
}

/// The tokens quick-xml reads from `data`, up to and including `Eof`,
/// with end names and comments left unchecked; `None` where it reports
/// an error first.
pub uninterp spec fn xml_tokens(data: Seq<u8>) -> Option<Seq<TokenModel>>;

/// The `k`-th attribute that quick-xml reads from the raw attribute text
/// `raw`: its key as written and its value normalized for XML 1.0;
/// `None` past the last, `Some(None)` where it reports an error.
pub uninterp spec fn attribute_at(raw: Seq<char>, k: usize) -> Option<Option<(Seq<char>, Seq<char>)>>;

/// The value of a digit in base `radix` (10 or 16, either case).
pub open spec fn radix_digit(c: char, radix: int) -> Option<int> {
    if '0' <= c && c <= '9' {
        Some(c as int - 48)
    } else if radix == 16 && 'a' <= c && c <= 'f' {
        Some(c as int - 87)
    } else if radix == 16 && 'A' <= c && c <= 'F' {
        Some(c as int - 55)
    } else {
        None
    }
}

/// The value of the digits `s` in base `radix`; `None` where a character
/// is not such a digit.
pub open spec fn radix_value(s: Seq<char>, radix: int) -> Option<int>
    decreases s.len(),
{
    if s.len() == 0 {
        Some(0)
    } else {
        match (radix_value(s.drop_last(), radix), radix_digit(s.last(), radix)) {
            (Some(v), Some(d)) => Some(v * radix + d),
            _ => None,
        }
    }
}

/// What a character reference named `name` stands for: a name of another
/// kind (not starting with `#`) gives `Some(None)`; `#` and decimal
/// digits, or `#x` and hexadecimal digits, give the character with that
/// code, and `None` where there are no digits, a character is not a
/// digit, the value exceeds 32 bits, or it is zero or no Unicode scalar
/// value.
pub open spec fn char_ref(name: Seq<char>) -> Option<Option<char>> {
    if name.len() == 0 || name[0] != '#' {
        Some(None)
    } else {
        let num = name.drop_first();
        let hex = num.len() > 0 && num[0] == 'x';
        let body = if hex {
            num.drop_first()
        } else {
            num
        };
        let radix: int = if hex {
            16
        } else {
            10
        };
        if body.len() == 0 {
            None
        } else {
            match radix_value(body, radix) {
                Some(v) => if v == 0 || v > u32::MAX || !is_scalar(v) {
                    None
                } else {
                    Some(Some(v as char))
                },
                None => None,
            }
        }
    }
}

/// One quick-xml event as a plain token.
#[verifier::external_body]
fn raw_token(ev: Event) -> (r: RawToken) {
    match ev {
        Event::Start(e) => RawToken::Start(String::from(e.local_name().as_ref()), String::from(e.attributes_raw())),
        Event::Empty(e) => RawToken::Empty(String::from(e.local_name().as_ref()), String::from(e.attributes_raw())),
        Event::End(e) => RawToken::End(String::from(e.local_name().as_ref())),
        Event::Text(e) => RawToken::Text(e.xml10_content().into_owned()),
        Event::CData(e) => RawToken::Text(e.xml10_content().into_owned()),
        Event::GeneralRef(e) => RawToken::Ref(String::from(e.as_ref())),
        Event::Eof => RawToken::Eof,
        _ => RawToken::Other,
    }
}

/// `Reader::read_event` over `data` until `Eof`, each event as a plain
/// token: the tokens `xml_tokens` names.
#[verifier::external_body]
fn xml_token_stream(data: &[u8]) -> (r: Option<Vec<RawToken>>)
    ensures
        match r {
            Some(v) => xml_tokens(data@) == Some(v@.map_values(|t: RawToken| token_model(t))),
            None => xml_tokens(data@) is None,
        },
{
    let mut reader = Reader::from_reader(data);
    reader.config_mut().check_end_names = false;
    reader.config_mut().check_comments = false;
    let mut out = Vec::new();
    loop {
        let t = raw_token(reader.read_event().ok()?);
        let eof = if let RawToken::Eof = t { true } else { false };
        out.push(t);
        if eof { return Some(out); }
    }
}

/// `Attributes::new(raw, 0).nth(k)`, the value by `normalized_value`.
#[verifier::external_body]
fn attribute_of(raw: &str, k: usize) -> (r: Option<Result<(String, String), XmlError>>)
    ensures
        attribute_at(raw@, k) == match r {
            None => None,
            Some(Err(_)) => Some(None),
            Some(Ok((key, value))) => Some(Some((key@, value@))),
        },
{
    match Attributes::new(raw, 0).nth(k) {
        None => None,
        Some(Ok(a)) => match a.normalized_value(quick_xml::XmlVersion::Implicit1_0) {
            Ok(v) => Some(Ok((String::from(a.key.as_ref()), v.into_owned()))),
            Err(_) => Some(Err(XmlError)),
        },
        Some(Err(_)) => Some(Err(XmlError)),
    }
}

/// `BytesRef::resolve_char_ref` of the reference named `name`: the
/// character of a `#` reference as `char_ref` states it.
#[verifier::external_body]
fn char_ref_of(name: &str) -> (r: Result<Option<char>, XmlError>)
    ensures
        char_ref(name@) == match r {
            Ok(c) => Some(c),
            Err(_) => None,
        },
{
    match BytesRef::new(name).resolve_char_ref() {
        Ok(c) => Ok(c),
        Err(_) => Err(XmlError),
    }
}

/// The text of the five entities that XML predefines.
pub open spec fn xml_entity_of(name: Seq<char>) -> Option<Seq<char>> {
    if name == "lt"@ {
        Some("<"@)
    } else if name == "gt"@ {
        Some(">"@)
    } else if name == "amp"@ {
        Some("&"@)
    } else if name == "apos"@ {
        Some("'"@)
    } else if name == "quot"@ {
        Some("\""@)
    } else {
        None
    }
}

/// The text of a predefined entity, `None` for any other name: the five
/// cases `quick_xml::escape::resolve_xml_entity` has.
fn xml_entity(name: &str) -> (r: Option<String>)
    ensures
        opt_chars(r) == xml_entity_of(name@),
{
    if str_eq(name, "lt") {
        Some("<".to_owned())
    } else if str_eq(name, "gt") {
        Some(">".to_owned())
    } else if str_eq(name, "amp") {
        Some("&".to_owned())
    } else if str_eq(name, "apos") {
        Some("'".to_owned())
    } else if str_eq(name, "quot") {
        Some("\"".to_owned())
    } else {
        None
    }
}

/// The text a reference named `name` stands for: a predefined entity or
/// a character reference; `None` for any other reference.
pub open spec fn ref_text(name: Seq<char>) -> Option<Seq<char>> {
    match xml_entity_of(name) {
        Some(s) => Some(s),
        None => match char_ref(name) {
            Some(Some(c)) => Some(seq![c]),
            _ => None,
        },
    }
}

/// The text a reference stands for; any reference that is neither a
/// predefined entity nor a character reference is an error.
fn reference_text(name: &str) -> (r: Result<String, XmlError>)
    ensures
        match r {
            Ok(s) => ref_text(name@) == Some(s@),
            Err(_) => ref_text(name@) is None,
        },
{
    match xml_entity(name) {
        Some(s) => Ok(s),
        None => match char_ref_of(name)? {
            Some(c) => {
                let mut s = String::new();
                push_char(&mut s, c);
                proof {
                    assert(s@ =~= seq![c]);
                }
                Ok(s)
            },
            None => Err(XmlError),
        },
    }
}

/// An attribute as plain values.
pub open spec fn attr_models(a: Seq<XmlAttr>) -> Seq<(Seq<char>, Seq<char>)> {
    a.map_values(|x: XmlAttr| (x.key@, x.value@))
}

/// The attributes of the raw attribute text `raw` from the `k`-th on, at
/// most `fuel` more: `None` where quick-xml reports an error or more
/// remain (each attribute takes at least one character of `raw`).
pub open spec fn attrs_from(raw: Seq<char>, k: usize, fuel: nat) -> Option<Seq<(Seq<char>, Seq<char>)>>
    decreases fuel,
{
    match attribute_at(raw, k) {
        None => Some(Seq::empty()),
        Some(None) => None,
        Some(Some(kv)) => if fuel == 0 || k >= usize::MAX {
            None
        } else {
            match attrs_from(raw, (k + 1) as usize, (fuel - 1) as nat) {
                None => None,
                Some(rest) => Some(seq![kv] + rest),
            }
        },
    }
}

/// All attributes of the raw attribute text `raw`.
pub open spec fn attrs_of(raw: Seq<char>) -> Option<Seq<(Seq<char>, Seq<char>)>> {
    attrs_from(raw, 0, raw.len())
}

/// A tag named `name` with the attributes of `raw`.
fn tag_of(name: String, raw: &str) -> (r: Result<XmlTag, XmlError>)
    ensures
        match r {
            Ok(t) => t.name@ == name@ && attrs_of(raw@) == Some(attr_models(t.attrs@)),
            Err(_) => attrs_of(raw@) is None,
        },
{
    let n = raw.unicode_len();
    let mut attrs: Vec<XmlAttr> = Vec::new();
    let mut k: usize = 0;
    let mut fuel: usize = n;
    loop
        invariant
            n == raw@.len(),
            k + fuel == n,
            attrs_of(raw@) == match attrs_from(raw@, k, fuel as nat) {
                None => None,
                Some(rest) => Some(attr_models(attrs@) + rest),
            },
        decreases fuel,
    {
        match attribute_of(raw, k) {
            None => {
                proof {
                    assert(attr_models(attrs@) + Seq::<(Seq<char>, Seq<char>)>::empty() =~= attr_models(attrs@));
                }
                return Ok(XmlTag { name, attrs });
            },
            Some(Err(e)) => {
                return Err(e);
            },
            Some(Ok((key, value))) => {
                if fuel == 0 {
                    return Err(XmlError);
                }
                let ghost before = attr_models(attrs@);
                let ghost kv = (key@, value@);
                attrs.push(XmlAttr { key, value });
                proof {
                    assert(attr_models(attrs@) =~= before.push(kv));
                    match attrs_from(raw@, (k + 1) as usize, (fuel - 1) as nat) {
                        None => {},
                        Some(rest) => {
                            assert(before + (seq![kv] + rest) =~= attr_models(attrs@) + rest);
                        },
                    }
                }
                k = k + 1;
                fuel = fuel - 1;
            },
        }
    }
}

/// An event as plain values.
pub ghost enum EventModel {
    Start(Seq<char>, Seq<(Seq<char>, Seq<char>)>),
    Empty(Seq<char>, Seq<(Seq<char>, Seq<char>)>),
    End(Seq<char>),
    Text(Seq<char>),
    Other,
    Eof,
}

pub open spec fn event_model(e: XmlEvent) -> EventModel {
    match e {
        XmlEvent::Start(t) => EventModel::Start(t.name@, attr_models(t.attrs@)),
        XmlEvent::Empty(t) => EventModel::Empty(t.name@, attr_models(t.attrs@)),
        XmlEvent::End(n) => EventModel::End(n@),
        XmlEvent::Text(s) => EventModel::Text(s@),
        XmlEvent::Other => EventModel::Other,
        XmlEvent::Eof => EventModel::Eof,
    }
}

pub open spec fn event_models(ev: Seq<XmlEvent>) -> Seq<EventModel> {
    ev.map_values(|e: XmlEvent| event_model(e))
}

/// The event that the token `t`, not `Eof`, gives: `None` where a
/// reference or the attributes cannot be read.
pub open spec fn token_event(t: TokenModel) -> Option<EventModel> {
    match t {
        TokenModel::Start(n, raw) => match attrs_of(raw) {
            Some(a) => Some(EventModel::Start(n, a)),
            None => None,
        },
        TokenModel::Empty(n, raw) => match attrs_of(raw) {
            Some(a) => Some(EventModel::Empty(n, a)),
            None => None,
        },
        TokenModel::End(n) => Some(EventModel::End(n)),
        TokenModel::Text(s) => Some(EventModel::Text(s)),
        TokenModel::Ref(n) => match ref_text(n) {
            Some(s) => Some(EventModel::Text(s)),
            None => None,
        },
        TokenModel::Other => Some(EventModel::Other),
        TokenModel::Eof => Some(EventModel::Eof),
    }
}

/// The events of the tokens from position `i` on: one per token up to the
/// first `Eof`, which ends them (as does the end of the tokens); `None`
/// where a token cannot be read or the events would outgrow a `usize`.
pub open spec fn events_from(toks: Seq<TokenModel>, i: int) -> Option<Seq<EventModel>>
    decreases toks.len() - i,
{
    if i < 0 || i >= toks.len() || toks[i] is Eof {
        Some(seq![EventModel::Eof])
    } else if i >= usize::MAX - 2 {
        None
    } else {
        match token_event(toks[i]) {
            None => None,
            Some(e) => match events_from(toks, i + 1) {
                None => None,
                Some(rest) => Some(seq![e] + rest),
            },
        }
    }
}

/// The events of the XML document `data`.
pub open spec fn xml_events_of(data: Seq<u8>) -> Option<Seq<EventModel>> {
    match xml_tokens(data) {
        None => None,
        Some(toks) => events_from(toks, 0),
    }
}

/// Whether an event sequence is one that a read can produce: one `Eof`,
/// at the end.
pub open spec fn well_ended(ev: Seq<XmlEvent>) -> bool {
    &&& ev.len() > 0
    &&& ev.last() is Eof
    &&& forall|i: int| 0 <= i < ev.len() - 1 ==> !(#[trigger] ev[i] is Eof)
}

/// All events of `data`, the last one `Eof`.
pub fn read_xml_events(data: &[u8]) -> (r: Result<Vec<XmlEvent>, XmlError>)
    ensures
        match r {
            Ok(ev) => xml_events_of(data@) == Some(event_models(ev@)) && well_ended(ev@)
                && ev@.len() < usize::MAX,
            Err(_) => xml_events_of(data@) is None,
        },
{
    let toks = match xml_token_stream(data) {
        Some(t) => t,
        None => {
            return Err(XmlError);
        },
    };
    let ghost tm = toks@.map_values(|t: RawToken| token_model(t));
    let mut events: Vec<XmlEvent> = Vec::new();
    let mut i: usize = 0;
    while i < toks.len()
        invariant
            i <= toks@.len(),
            tm == toks@.map_values(|t: RawToken| token_model(t)),
            xml_tokens(data@) == Some(tm),
            events@.len() == i,
            i <= usize::MAX - 2,
            forall|j: int| 0 <= j < events@.len() ==> !(#[trigger] events@[j] is Eof),
            events_from(tm, 0) == match events_from(tm, i as int) {
                None => None,
                Some(rest) => Some(event_models(events@) + rest),
            },
        decreases toks@.len() - i,
    {
        let ghost before = event_models(events@);
        let e = match &toks[i] {
            RawToken::Eof => {
                return Ok(finish_events(events, Ghost(tm), Ghost(i as int)));
            },
            RawToken::Start(n, raw) => XmlEvent::Start(tag_of(n.clone(), raw.as_str())?),
            RawToken::Empty(n, raw) => XmlEvent::Empty(tag_of(n.clone(), raw.as_str())?),
            RawToken::End(n) => XmlEvent::End(n.clone()),
            RawToken::Text(s) => XmlEvent::Text(s.clone()),
            RawToken::Ref(n) => XmlEvent::Text(reference_text(n.as_str())?),
            RawToken::Other => XmlEvent::Other,
        };
        if i >= usize::MAX - 2 {
            return Err(XmlError);
        }
        proof {
            assert(token_event(tm[i as int]) == Some(event_model(e)));
        }
        events.push(e);
        proof {
            assert(event_models(events@) =~= before.push(event_model(e)));
            match events_from(tm, i + 1) {
                None => {},
                Some(rest) => {
                    assert(before + (seq![event_model(e)] + rest) =~= event_models(events@) + rest);
                },
            }
        }
        i = i + 1;
    }
    Ok(finish_events(events, Ghost(tm), Ghost(i as int)))
}

/// The events read so far with the closing `Eof` added, where the tokens
/// from `i` on give no more events.
fn finish_events(events: Vec<XmlEvent>, Ghost(tm): Ghost<Seq<TokenModel>>, Ghost(i): Ghost<int>) -> (r: Vec<XmlEvent>)
    requires
        events@.len() <= usize::MAX - 2,
        forall|j: int| 0 <= j < events@.len() ==> !(#[trigger] events@[j] is Eof),
        events_from(tm, i) == Some(seq![EventModel::Eof]),
    ensures
        r@.len() < usize::MAX,
        well_ended(r@),
        event_models(r@) == event_models(events@) + seq![EventModel::Eof],
{
    let mut events = events;
    let ghost ev0 = events@;
    let ghost before = event_models(events@);
    events.push(XmlEvent::Eof);
    proof {
        assert(event_models(events@) =~= before + seq![EventModel::Eof]);
        assert forall|j: int| 0 <= j < events@.len() - 1 implies !(#[trigger] events@[j] is Eof) by {
            assert(events@[j] == ev0[j]);
        }
    }
    events
}

/// The value of the first attribute named `key` from position `i` on.
pub open spec fn attr_from(attrs: Seq<XmlAttr>, key: Seq<char>, i: int) -> Option<String>
    decreases attrs.len() - i,
{
    if i < 0 || i >= attrs.len() {
        None
    } else if attrs[i].key@ == key {
        Some(attrs[i].value)
    } else {
        attr_from(attrs, key, i + 1)
    }
}

/// The value of the first attribute of `t` named `key`.
pub open spec fn attr_str(t: XmlTag, key: Seq<char>) -> Option<String> {
    attr_from(t.attrs@, key, 0)
}

/// An optional string by its characters.
pub open spec fn opt_chars(o: Option<String>) -> Option<Seq<char>> {
    match o {
        Some(s) => Some(s@),
        None => None,
    }
}

/// The characters of the first attribute of `t` named `key`.
pub open spec fn attr(t: XmlTag, key: Seq<char>) -> Option<Seq<char>> {
    opt_chars(attr_str(t, key))
}

/// The value of the first attribute of `t` named `key`.
pub fn get_attr(t: &XmlTag, key: &str) -> (r: Option<String>)
    ensures
        r == attr_str(*t, key@),
        opt_chars(r) == attr(*t, key@),
{
    let mut i: usize = 0;
    while i < t.attrs.len()
        invariant
            i <= t.attrs@.len(),
            attr_str(*t, key@) == attr_from(t.attrs@, key@, i as int),
        decreases t.attrs@.len() - i,
    {
        if str_eq(t.attrs[i].key.as_str(), key) {
            return Some(t.attrs[i].value.clone());
        }
        i = i + 1;
    }
    None
}

/// Whether the tag's local name is `name`.
pub fn is_named(t: &XmlTag, name: &str) -> (r: bool)
    ensures
        r == (t.name@ == name@),
{
    str_eq(t.name.as_str(), name)
}

/// An on/off property: on where `w:val` is absent, off for `0`, `false`
/// and `off`.
pub open spec fn toggle(t: XmlTag) -> bool {
    match attr(t, "w:val"@) {
        None => true,
        Some(v) => !(v == "0"@ || v == "false"@ || v == "off"@),
    }
}

/// `toggle` as an executable test.
pub fn parse_toggle(t: &XmlTag) -> (r: bool)
    ensures
        r == toggle(*t),
{
    match get_attr(t, "w:val") {
        None => true,
        Some(v) => {
            let s = v.as_str();
            !(str_eq(s, "0") || str_eq(s, "false") || str_eq(s, "off"))
        },
    }
}

/// The position just past the end tag that closes an element whose
/// start tag was read just before `pos`, nested starts counted; `depth`
/// elements are open. At the end of the document the position stays
/// where the end was met.
pub open spec fn skip_end(ev: Seq<XmlEvent>, pos: int, depth: int) -> int
    decreases ev.len() - pos,
{
    if pos < 0 || pos >= ev.len() {
        pos
    } else {
        match ev[pos] {
            XmlEvent::Start(_) => skip_end(ev, pos + 1, depth + 1),
            XmlEvent::End(_) => if depth <= 1 {
                pos + 1
            } else {
                skip_end(ev, pos + 1, depth - 1)
            },
            XmlEvent::Eof => pos,
            _ => skip_end(ev, pos + 1, depth),
        }
    }
}

pub proof fn lemma_skip_end(ev: Seq<XmlEvent>, pos: int, depth: int)
    requires
        0 <= pos,
    ensures
        pos <= skip_end(ev, pos, depth),
        pos <= ev.len() ==> skip_end(ev, pos, depth) <= ev.len(),
    decreases ev.len() - pos,
{
    if pos < ev.len() {
        match ev[pos] {
            XmlEvent::Start(_) => lemma_skip_end(ev, pos + 1, depth + 1),
            XmlEvent::End(_) => if depth > 1 {
                lemma_skip_end(ev, pos + 1, depth - 1)
            },
            XmlEvent::Eof => {},
            _ => lemma_skip_end(ev, pos + 1, depth),
        }
    }
}

/// Skips the rest of an element whose start tag was just read.
pub fn skip_element(ev: &[XmlEvent], pos: usize) -> (r: usize)
    requires
        pos <= ev@.len(),
        ev@.len() < usize::MAX,
    ensures
        r == skip_end(ev@, pos as int, 1),
        pos <= r <= ev@.len(),
{
    let mut p: usize = pos;
    let mut depth: usize = 1;
    let n = ev.len();
    proof {
        lemma_skip_end(ev@, pos as int, 1);
    }
    while p < n
        invariant
            n == ev@.len(),
            n < usize::MAX,
            pos <= p <= ev@.len(),
            1 <= depth <= p - pos + 1,
            skip_end(ev@, pos as int, 1) == skip_end(ev@, p as int, depth as int),
        decreases ev@.len() - p,
    {
        match &ev[p] {
            XmlEvent::Start(_) => {
                depth = depth + 1;
            },
            XmlEvent::End(_) => {
                if depth <= 1 {
                    return p + 1;
                }
                depth = depth - 1;
            },
            XmlEvent::Eof => {
                return p;
            },
            _ => {},
        }
        p = p + 1;
    }
    p
}

/// `n` where it lies past `pos` and within a sequence of `len` events,
/// else `len`: a position a sub-reader may hand back.
pub open spec fn fwd(len: int, pos: int, n: int) -> int {
    if pos < n <= len {
        n
    } else {
        len
    }
}

/// The position past the element whose start tag is at `pos`.
pub open spec fn past(ev: Seq<XmlEvent>, pos: int) -> int {
    fwd(ev.len() as int, pos, skip_end(ev, pos + 1, 1))
}

/// Skips the element whose start tag is at `pos`.
pub fn skip_past(ev: &[XmlEvent], pos: usize) -> (r: usize)
    requires
        pos < ev@.len(),
        ev@.len() < usize::MAX,
    ensures
        r == past(ev@, pos as int),
        pos < r <= ev@.len(),
{
    skip_element(ev, pos + 1)
}

/// The text of an element whose start tag was read just before `pos`:
/// the character data up to the first end tag, and the position past
/// it (at the end of the document, the position of `Eof`).
pub open spec fn text_scan(ev: Seq<XmlEvent>, pos: int) -> (Seq<char>, int)
    decreases ev.len() - pos,
{
    if pos < 0 || pos >= ev.len() {
        (Seq::empty(), pos)
    } else {
        match ev[pos] {
            XmlEvent::Text(t) => {
                let rest = text_scan(ev, pos + 1);
                (t@ + rest.0, rest.1)
            },
            XmlEvent::End(_) => (Seq::empty(), pos + 1),
            XmlEvent::Eof => (Seq::empty(), pos),
            _ => text_scan(ev, pos + 1),
        }
    }
}

/// Reads the text of an element whose start tag was read just before
/// `pos`.
pub fn read_text_content(ev: &[XmlEvent], pos: usize) -> (r: (String, usize))
    requires
        pos <= ev@.len(),
        ev@.len() < usize::MAX,
    ensures
        (r.0@, r.1 as int) == text_scan(ev@, pos as int),
        pos <= r.1 <= ev@.len(),
{
    let mut text = String::new();
    let mut p: usize = pos;
    let n = ev.len();
    while p < n
        invariant
            n == ev@.len(),
            n < usize::MAX,
            pos <= p <= n,
            text_scan(ev@, pos as int) == (text@ + text_scan(ev@, p as int).0, text_scan(
                ev@,
                p as int,
            ).1),
        decreases n - p,
    {
        match &ev[p] {
            XmlEvent::Text(t) => {
                proof {
                    let rest = text_scan(ev@, p + 1);
                    assert(text@ + (t@ + rest.0) == (text@ + t@) + rest.0);
                }
                append_str(&mut text, t.as_str());
            },
            XmlEvent::End(_) => {
                proof {
                    assert(text@ + Seq::<char>::empty() == text@);
                }
                return (text, p + 1);
            },
            XmlEvent::Eof => {
                proof {
                    assert(text@ + Seq::<char>::empty() == text@);
                }
                return (text, p);
            },
            _ => {},
        }
        p = p + 1;
    }
    proof {
        assert(text@ + Seq::<char>::empty() == text@);
    }
    (text, p)
}

} // verus!
