//! Structural JSON tokens as owned values, and the dotted key path that
//! locates the target array.

use crate::error::CopyError;
use vstd::prelude::*;

verus! {

/// Mathematical model of one structural JSON token.
pub enum Event {
    String(Seq<char>),
    Number(Seq<char>),
    Boolean(bool),
    Null,
    StartArray,
    EndArray,
    StartObject,
    EndObject,
    ObjectKey(Seq<char>),
    Eof,
}

/// One structural JSON token, owned, independent of any parser buffer.
/// Number keeps the source text so the original formatting survives a copy.
#[derive(Debug)]
pub enum OwnedJsonEvent {
    String(String),
    Number(String),
    Boolean(bool),
    Null,
    StartArray,
    EndArray,
    StartObject,
    EndObject,
    ObjectKey(String),
    Eof,
}

impl View for OwnedJsonEvent {
    type V = Event;

    open spec fn view(&self) -> Event {
        match self {
            OwnedJsonEvent::String(s) => Event::String(s@),
            OwnedJsonEvent::Number(s) => Event::Number(s@),
            OwnedJsonEvent::Boolean(b) => Event::Boolean(*b),
            OwnedJsonEvent::Null => Event::Null,
            OwnedJsonEvent::StartArray => Event::StartArray,
            OwnedJsonEvent::EndArray => Event::EndArray,
            OwnedJsonEvent::StartObject => Event::StartObject,
            OwnedJsonEvent::EndObject => Event::EndObject,
            OwnedJsonEvent::ObjectKey(s) => Event::ObjectKey(s@),
            OwnedJsonEvent::Eof => Event::Eof,
        }
    }
}

impl Clone for OwnedJsonEvent {
    fn clone(&self) -> (r: Self)
        ensures
            r == *self,
    {
        match self {
            OwnedJsonEvent::String(s) => OwnedJsonEvent::String(s.clone()),
            OwnedJsonEvent::Number(s) => OwnedJsonEvent::Number(s.clone()),
            OwnedJsonEvent::Boolean(b) => OwnedJsonEvent::Boolean(*b),
            OwnedJsonEvent::Null => OwnedJsonEvent::Null,
            OwnedJsonEvent::StartArray => OwnedJsonEvent::StartArray,
            OwnedJsonEvent::EndArray => OwnedJsonEvent::EndArray,
            OwnedJsonEvent::StartObject => OwnedJsonEvent::StartObject,
            OwnedJsonEvent::EndObject => OwnedJsonEvent::EndObject,
            OwnedJsonEvent::ObjectKey(s) => OwnedJsonEvent::ObjectKey(s.clone()),
            OwnedJsonEvent::Eof => OwnedJsonEvent::Eof,
        }
    }
}

impl PartialEq for OwnedJsonEvent {
    fn eq(&self, other: &Self) -> (r: bool) {
        match (self, other) {
            (OwnedJsonEvent::String(a), OwnedJsonEvent::String(b)) => *a == *b,
            (OwnedJsonEvent::Number(a), OwnedJsonEvent::Number(b)) => *a == *b,
            (OwnedJsonEvent::Boolean(a), OwnedJsonEvent::Boolean(b)) => *a == *b,
            (OwnedJsonEvent::Null, OwnedJsonEvent::Null) => true,
            (OwnedJsonEvent::StartArray, OwnedJsonEvent::StartArray) => true,
            (OwnedJsonEvent::EndArray, OwnedJsonEvent::EndArray) => true,
            (OwnedJsonEvent::StartObject, OwnedJsonEvent::StartObject) => true,
            (OwnedJsonEvent::EndObject, OwnedJsonEvent::EndObject) => true,
            (OwnedJsonEvent::ObjectKey(a), OwnedJsonEvent::ObjectKey(b)) => *a == *b,
            (OwnedJsonEvent::Eof, OwnedJsonEvent::Eof) => true,
            _ => false,
        }
    }
}

impl vstd::std_specs::cmp::PartialEqSpecImpl for OwnedJsonEvent {
    open spec fn obeys_eq_spec() -> bool {
        true
    }

    open spec fn eq_spec(&self, other: &Self) -> bool {
        self@ == other@
    }
}

/// The text that names one token in a diagnostic: its kind, with the carried
/// text in parentheses where it has one.
pub open spec fn event_label(e: Event) -> Seq<char> {
    match e {
        Event::String(t) => "String("@ + t + ")"@,
        Event::Number(t) => "Number("@ + t + ")"@,
        Event::Boolean(b) => if b {
            "Boolean(true)"@
        } else {
            "Boolean(false)"@
        },
        Event::Null => "Null"@,
        Event::StartArray => "StartArray"@,
        Event::EndArray => "EndArray"@,
        Event::StartObject => "StartObject"@,
        Event::EndObject => "EndObject"@,
        Event::ObjectKey(t) => "ObjectKey("@ + t + ")"@,
        Event::Eof => "Eof"@,
    }
}

/// The borrowed token type of the streaming parser, declared so that it may
/// stand in signatures; its values are opaque here.
#[verifier::external_type_specification]
#[verifier::external_body]
pub struct ExJsonEvent<'a>(json_event_parser::JsonEvent<'a>);

impl OwnedJsonEvent {
    /// Renders the token for a diagnostic, as `event_label` says.
    pub fn label(&self) -> (r: String)
        ensures
            r@ == event_label(self@),
    {
        match self {
            OwnedJsonEvent::String(t) => {
                let mut r = "String(".to_owned();
                r.append(t.as_str());
                r.append(")");
                r
            },
            OwnedJsonEvent::Number(t) => {
                let mut r = "Number(".to_owned();
                r.append(t.as_str());
                r.append(")");
                r
            },
            OwnedJsonEvent::Boolean(b) => {
                if *b {
                    "Boolean(true)".to_owned()
                } else {
                    "Boolean(false)".to_owned()
                }
            },
            OwnedJsonEvent::Null => "Null".to_owned(),
            OwnedJsonEvent::StartArray => "StartArray".to_owned(),
            OwnedJsonEvent::EndArray => "EndArray".to_owned(),
            OwnedJsonEvent::StartObject => "StartObject".to_owned(),
            OwnedJsonEvent::EndObject => "EndObject".to_owned(),
            OwnedJsonEvent::ObjectKey(t) => {
                let mut r = "ObjectKey(".to_owned();
                r.append(t.as_str());
                r.append(")");
                r
            },
            OwnedJsonEvent::Eof => "Eof".to_owned(),
        }
    }

    /// Relies on json_event_parser::JsonEvent: builds the borrowed twin of this
    /// token, one arm per token kind, text handed over as is.
    #[verifier::external_body]
    pub fn as_json_event(&self) -> (r: json_event_parser::JsonEvent<'_>) {
        match self {
            Self::String(s) => json_event_parser::JsonEvent::String(s),
            Self::Number(s) => json_event_parser::JsonEvent::Number(s),
            Self::Boolean(b) => json_event_parser::JsonEvent::Boolean(*b),
            Self::Null => json_event_parser::JsonEvent::Null,
            Self::StartArray => json_event_parser::JsonEvent::StartArray,
            Self::EndArray => json_event_parser::JsonEvent::EndArray,
            Self::StartObject => json_event_parser::JsonEvent::StartObject,
            Self::EndObject => json_event_parser::JsonEvent::EndObject,
            Self::ObjectKey(s) => json_event_parser::JsonEvent::ObjectKey(s),
            Self::Eof => json_event_parser::JsonEvent::Eof,
        }
    }
}

/// Relies on String::push: appends one character at the end.
pub assume_specification[ std::string::String::push ](s: &mut std::string::String, ch: char)
    ensures
        final(s)@ == old(s)@.push(ch),
;

/// The segments that the dotted path grammar yields from the rest of the
/// input `s`, with `cur` the segment built so far and `escaped` whether the
/// last character read was an unconsumed backslash. A dot closes the current
/// segment (even an empty one, so leading and trailing dots give empty-string
/// segments); a backslash makes the next character literal and is not itself
/// kept; the end of the input closes the final segment, empty or not.
pub open spec fn parse_segments(s: Seq<char>, cur: Seq<char>, escaped: bool) -> Seq<Event>
    decreases s.len(),
{
    if s.len() == 0 {
        seq![Event::ObjectKey(cur)]
    } else if escaped {
        parse_segments(s.drop_first(), cur.push(s[0]), false)
    } else if s[0] == '\\' {
        parse_segments(s.drop_first(), cur, true)
    } else if s[0] == '.' {
        seq![Event::ObjectKey(cur)] + parse_segments(s.drop_first(), Seq::empty(), false)
    } else {
        parse_segments(s.drop_first(), cur.push(s[0]), false)
    }
}

/// The ordered object-key segments denoted by a dotted path string: the
/// empty input denotes the empty path, any other input splits into one
/// segment more than it has unescaped dots.
pub open spec fn key_path_of(s: Seq<char>) -> Seq<Event> {
    if s.len() == 0 {
        Seq::empty()
    } else {
        parse_segments(s, Seq::empty(), false)
    }
}

/// An ordered sequence of object keys describing the descent to the target
/// array; empty means the document root is the target array itself.
pub struct KeyPath {
    json_path: Vec<OwnedJsonEvent>,
}

impl View for KeyPath {
    type V = Seq<Event>;

    closed spec fn view(&self) -> Seq<Event> {
        self.json_path@.map_values(|e: OwnedJsonEvent| e@)
    }
}

impl KeyPath {
    /// Every segment is an object key.
    pub open spec fn wf(&self) -> bool {
        forall|i: int| 0 <= i < self@.len() ==> (#[trigger] self@[i]) is ObjectKey
    }

    /// Parses a dotted path string. Splits on `.`; a backslash escapes the
    /// next character. Every input string is accepted.
    pub fn from_kp_str(key_path_str: &str) -> (r: Result<KeyPath, CopyError>)
        ensures
            r matches Ok(kp) && kp@ == key_path_of(key_path_str@) && kp.wf(),
    {
        let ghost s: Seq<char> = key_path_str@;
        let n = key_path_str.unicode_len();
        let mut json_path: Vec<OwnedJsonEvent> = Vec::new();
        if n == 0 {
            let r = KeyPath { json_path };
            proof {
                assert(r@ =~= Seq::<Event>::empty());
            }
            return Ok(r);
        }
        let mut escaped = false;
        let mut current_key = String::new();
        let mut i: usize = 0;
        proof {
            assert(s.skip(0) =~= s);
            assert(json_path@.map_values(|e: OwnedJsonEvent| e@) =~= Seq::<Event>::empty());
        }
        while i < n
            invariant
                n == s.len(),
                n > 0,
                s == key_path_str@,
                i <= n,
                key_path_of(s) == json_path@.map_values(|e: OwnedJsonEvent| e@)
                    + parse_segments(s.skip(i as int), current_key@, escaped),
                forall|j: int|
                    0 <= j < json_path@.len() ==> (#[trigger] json_path@[j]@) is ObjectKey,
            decreases n - i,
        {
            let c = key_path_str.get_char(i);
            proof {
                assert(s.skip(i as int)[0] == s[i as int]);
                assert(s.skip(i as int).drop_first() =~= s.skip(i + 1));
            }
            if escaped {
                current_key.push(c);
                escaped = false;
            } else if c == '\\' {
                escaped = true;
            } else if c == '.' {
                let ghost before = json_path@;
                json_path.push(OwnedJsonEvent::ObjectKey(current_key));
                current_key = String::new();
                proof {
                    assert(json_path@.map_values(|e: OwnedJsonEvent| e@) =~= before.map_values(
                        |e: OwnedJsonEvent| e@,
                    ) + seq![json_path@.last()@]);
                }
            } else {
                current_key.push(c);
            }
            i += 1;
        }
        proof {
            assert(s.skip(n as int) =~= Seq::<char>::empty());
        }
        let ghost before = json_path@;
        json_path.push(OwnedJsonEvent::ObjectKey(current_key));
        proof {
            assert(json_path@.map_values(|e: OwnedJsonEvent| e@) =~= before.map_values(
                |e: OwnedJsonEvent| e@,
            ) + seq![json_path@.last()@]);
        }
        Ok(KeyPath { json_path })
    }

    /// Read access to all segments in traversal order.
    pub fn iterator(&self) -> (r: &Vec<OwnedJsonEvent>)
        ensures
            r@.map_values(|e: OwnedJsonEvent| e@) == self@,
    {
        &self.json_path
    }

    /// How many segments the path holds.
    pub fn len(&self) -> (n: usize)
        ensures
            n == self@.len(),
    {
        self.json_path.len()
    }

    /// The segment at a 0-based position.
    pub fn index(&self, idx: usize) -> (r: &OwnedJsonEvent)
        requires
            idx < self@.len(),
        ensures
            r@ == self@[idx as int],
    {
        &self.json_path[idx]
    }
}

impl Default for KeyPath {
    /// The empty path: the document root is the target array itself.
    fn default() -> (r: Self)
        ensures
            r@ == Seq::<Event>::empty(),
            r.wf(),
    {
        let r = KeyPath { json_path: Vec::new() };
        proof {
            assert(r@ =~= Seq::<Event>::empty());
        }
        r
    }
}

} // verus!
