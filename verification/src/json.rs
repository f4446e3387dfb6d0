//! JSON values: tool arguments out of a command line, and results as printed.

use serde_json::Value;
use vstd::prelude::*;

use crate::entries::opt_text;
use crate::sort::texts;
use crate::text::{chars_of, debug_form, quoted};

verus! {

/// `serde_json::Value`, carried through as it is.
#[verifier::external_type_specification]
#[verifier::external_body]
pub struct ExValue(serde_json::Value);

/// `serde_json::Map`, carried through as it is.
#[verifier::external_type_specification]
#[verifier::external_body]
#[verifier::reject_recursive_types(K)]
#[verifier::reject_recursive_types(V)]
pub struct ExMap<K, V>(serde_json::Map<K, V>);

/// What a JSON value holds. A number is given by its digits as JSON writes them.
pub enum JsonView {
    Null,
    Bool(bool),
    Number(Seq<char>),
    Text(Seq<char>),
    Array(Seq<JsonView>),
    Object(Map<Seq<char>, JsonView>),
}

/// What a value of `serde_json` holds.
pub uninterp spec fn json_content(v: serde_json::Value) -> JsonView;

/// What an object of `serde_json` holds under each key.
pub uninterp spec fn json_entries(m: serde_json::Map<String, serde_json::Value>) -> Map<Seq<char>, JsonView>;

/// What `serde_json` makes of a text: a value, or the wording of its error.
pub uninterp spec fn json_reading(text: Seq<char>) -> Result<JsonView, Seq<char>>;

/// The text that `serde_json` writes on one line for a value, or the wording of its error.
pub uninterp spec fn json_line(v: JsonView) -> Result<Seq<char>, Seq<char>>;

/// The indented text that `serde_json` writes for a value, or the wording of its error.
pub uninterp spec fn json_pages(v: JsonView) -> Result<Seq<char>, Seq<char>>;

/// `serde_json::from_str` into a `Value`. The outcome depends on the text alone; an error is
/// handed on as its `Display` text.
#[verifier::external_body]
fn parse(text: &str) -> (r: Result<Value, String>)
    ensures
        r is Ok <==> json_reading(text@) is Ok,
        r matches Ok(v) ==> json_content(v) == json_reading(text@)->Ok_0,
        r matches Err(e) ==> e@ == json_reading(text@)->Err_0,
{
    match serde_json::from_str::<Value>(text) {
        Ok(v) => Ok(v),
        Err(e) => Err(e.to_string()),
    }
}

/// `serde_json::Value::is_object`: whether the value is an object.
#[verifier::external_body]
fn is_object(v: &Value) -> (r: bool)
    ensures
        r == (json_content(*v) is Object),
{
    v.is_object()
}

/// `serde_json::Value::String`: the value of a text.
#[verifier::external_body]
fn text_value(s: String) -> (r: Value)
    ensures
        json_content(r) == JsonView::Text(s@),
{
    Value::String(s)
}

/// No entry at all.
pub open spec fn no_entries() -> Map<Seq<char>, JsonView> {
    Map::empty()
}

/// `serde_json::Map::new`: an object without entries.
#[verifier::external_body]
fn new_object() -> (r: serde_json::Map<String, Value>)
    ensures
        json_entries(r) == no_entries(),
{
    serde_json::Map::new()
}

/// `serde_json::Map::insert`: sets the entry of one key, whatever it was, and leaves the others.
#[verifier::external_body]
fn insert(m: &mut serde_json::Map<String, Value>, key: String, v: Value)
    ensures
        json_entries(*final(m)) == json_entries(*old(m)).insert(key@, json_content(v)),
{
    m.insert(key, v);
}

/// `serde_json::Value::Object`: the value of an object.
#[verifier::external_body]
fn object_value(m: serde_json::Map<String, Value>) -> (r: Value)
    ensures
        json_content(r) == JsonView::Object(json_entries(m)),
{
    Value::Object(m)
}

/// `serde_json::to_string` of a `Value`. The outcome depends on what the value holds alone, since
/// objects are kept in the order of their keys; an error is handed on as its `Display` text.
#[verifier::external_body]
fn write_line(v: &Value) -> (r: Result<String, String>)
    ensures
        r is Ok <==> json_line(json_content(*v)) is Ok,
        r matches Ok(s) ==> s@ == json_line(json_content(*v))->Ok_0,
        r matches Err(e) ==> e@ == json_line(json_content(*v))->Err_0,
{
    match serde_json::to_string(v) {
        Ok(s) => Ok(s),
        Err(e) => Err(e.to_string()),
    }
}

/// `serde_json::to_string_pretty` of a `Value`. The outcome depends on what the value holds
/// alone, since objects are kept in the order of their keys; an error is handed on as its
/// `Display` text.
#[verifier::external_body]
fn write_pages(v: &Value) -> (r: Result<String, String>)
    ensures
        r is Ok <==> json_pages(json_content(*v)) is Ok,
        r matches Ok(s) ==> s@ == json_pages(json_content(*v))->Ok_0,
        r matches Err(e) ==> e@ == json_pages(json_content(*v))->Err_0,
{
    match serde_json::to_string_pretty(v) {
        Ok(s) => Ok(s),
        Err(e) => Err(e.to_string()),
    }
}

/// What is printed for a value that was written, or could not be.
pub open spec fn printed(written: Result<Seq<char>, Seq<char>>) -> Seq<char> {
    match written {
        Ok(s) => s,
        Err(e) => "{\"error\":\""@ + e + "\"}"@,
    }
}

/// What is printed, given what came of writing a value.
pub fn printed_text(written: Result<String, String>) -> (r: String)
    ensures
        r@ == printed(
            match written {
                Ok(s) => Ok(s@),
                Err(e) => Err(e@),
            },
        ),
{
    match written {
        Ok(s) => s,
        Err(e) => {
            let mut r = "{\"error\":\"".to_owned();
            r.append(e.as_str());
            r.append("\"}");
            r
        },
    }
}

/// What is printed for a value: indented where `pretty`, else on one line.
pub open spec fn rendered(v: JsonView, pretty: bool) -> Seq<char> {
    printed(
        if pretty {
            json_pages(v)
        } else {
            json_line(v)
        },
    )
}

/// The text of a value: indented where `pretty`, else on one line.
pub fn render_value(v: &Value, pretty: bool) -> (r: String)
    ensures
        r@ == rendered(json_content(*v), pretty),
{
    if pretty {
        printed_text(write_pages(v))
    } else {
        printed_text(write_line(v))
    }
}

/// The first equals sign of `s` is at `i`.
pub open spec fn equals_at(s: Seq<char>, i: int) -> bool {
    &&& 0 <= i < s.len()
    &&& s[i] == '='
    &&& forall|k: int| 0 <= k < i ==> #[trigger] s[k] != '='
}

/// Key and value of a `key=value` entry, parted at the first equals sign.
pub open spec fn split_entry(s: Seq<char>) -> Option<(Seq<char>, Seq<char>)> {
    if exists|i: int| equals_at(s, i) {
        let i = choose|i: int| equals_at(s, i);
        Some((s.take(i), s.skip(i + 1)))
    } else {
        None
    }
}

fn text_between(chars: &Vec<char>, from: usize, to: usize) -> (r: String)
    requires
        from <= to <= chars.len(),
    ensures
        r@ == chars@.subrange(from as int, to as int),
{
    let mut r = String::new();
    let mut i: usize = from;
    while i < to
        invariant
            from <= i <= to <= chars.len(),
            r@ == chars@.subrange(from as int, i as int),
        decreases to - i,
    {
        r.push(chars[i]);
        assert(r@ =~= chars@.subrange(from as int, i + 1));
        i += 1;
    }
    r
}

/// Parts a `key=value` entry at the first equals sign.
pub fn split_once(entry: &str) -> (r: Option<(String, String)>)
    ensures
        match r {
            Some(p) => split_entry(entry@) == Some((p.0@, p.1@)),
            None => split_entry(entry@) is None,
        },
{
    let chars = chars_of(entry);
    let mut i: usize = 0;
    while i < chars.len()
        invariant
            i <= chars.len(),
            chars@ == entry@,
            forall|k: int| 0 <= k < i ==> #[trigger] entry@[k] != '=',
        decreases chars.len() - i,
    {
        if chars[i] == '=' {
            proof {
                assert(equals_at(entry@, i as int));
                let j = choose|j: int| equals_at(entry@, j);
                assert(i == j) by {
                    if i < j {
                        assert(entry@[i as int] != '=');
                    } else if j < i {
                        assert(entry@[j] != '=');
                    }
                }
                assert(entry@.subrange(0, i as int) =~= entry@.take(i as int));
                assert(entry@.subrange(i + 1, entry@.len() as int) =~= entry@.skip(i + 1));
            }
            return Some((text_between(&chars, 0, i), text_between(&chars, i + 1, chars.len())));
        }
        i += 1;
    }
    None
}

/// The value of an entry: what its text reads as JSON, else the text itself.
pub open spec fn entry_value(text: Seq<char>) -> JsonView {
    match json_reading(text) {
        Ok(v) => v,
        Err(_) => JsonView::Text(text),
    }
}

/// The value of an entry, given what came of reading its text as JSON.
pub fn value_or_text(parsed: Result<Value, String>, text: String) -> (r: Value)
    ensures
        parsed matches Ok(v) ==> r == v,
        parsed is Err ==> json_content(r) == JsonView::Text(text@),
{
    match parsed {
        Ok(v) => v,
        Err(_) => text_value(text),
    }
}

/// The wording of an entry without an equals sign; `quoted` is the entry as `Debug` writes it.
pub open spec fn no_equals_text(quoted: Seq<char>) -> Seq<char> {
    "expected key=value, got "@ + quoted
}

/// Words an entry without an equals sign.
pub fn no_equals_message(quoted: &str) -> (r: String)
    ensures
        r@ == no_equals_text(quoted@),
{
    let mut r = "expected key=value, got ".to_owned();
    r.append(quoted);
    r
}

/// The object that entries make, taken in order so that a later one of the same key wins; an
/// error at the first that has no equals sign.
pub open spec fn entries_object(entries: Seq<Seq<char>>) -> Result<Map<Seq<char>, JsonView>, Seq<char>>
    decreases entries.len(),
{
    if entries.len() == 0 {
        Ok(no_entries())
    } else {
        match entries_object(entries.drop_last()) {
            Err(e) => Err(e),
            Ok(m) => match split_entry(entries.last()) {
                None => Err(no_equals_text(debug_form(entries.last()))),
                Some(p) => Ok(m.insert(p.0, entry_value(p.1))),
            },
        }
    }
}

/// The arguments of a tool: from a whole JSON text where one is given, else from entries.
pub open spec fn arguments(json: Option<Seq<char>>, kv: Seq<Seq<char>>) -> Result<JsonView, Seq<char>> {
    match json {
        Some(raw) => whole_object(json_reading(raw)),
        None => match entries_object(kv) {
            Ok(m) => Ok(JsonView::Object(m)),
            Err(e) => Err(e),
        },
    }
}

/// What a whole JSON text gives, once read: it must be an object.
pub open spec fn whole_object(read: Result<JsonView, Seq<char>>) -> Result<JsonView, Seq<char>> {
    match read {
        Err(e) => Err("--json is not valid JSON: "@ + e),
        Ok(v) => if v is Object {
            Ok(v)
        } else {
            Err("--json must be a JSON object"@)
        },
    }
}

/// What a value or a message holds.
pub open spec fn outcome(r: Result<Value, String>) -> Result<JsonView, Seq<char>> {
    match r {
        Ok(v) => Ok(json_content(v)),
        Err(e) => Err(e@),
    }
}

/// Accepts what came of reading a whole JSON text, if it is an object.
pub fn require_object(read: Result<Value, String>) -> (r: Result<Value, String>)
    ensures
        outcome(r) == whole_object(outcome(read)),
{
    match read {
        Err(e) => {
            let mut m = "--json is not valid JSON: ".to_owned();
            m.append(e.as_str());
            Err(m)
        },
        Ok(v) => if is_object(&v) {
            Ok(v)
        } else {
            Err("--json must be a JSON object".to_owned())
        },
    }
}

/// Builds the arguments of a tool out of a whole JSON text or of `key=value` entries. Entries do
/// not count where a whole text is given.
pub fn build_args(json: Option<String>, kv: Vec<String>) -> (r: Result<Value, String>)
    ensures
        outcome(r) == arguments(opt_text(json), texts(kv@)),
{
    if let Some(raw) = json {
        return require_object(parse(raw.as_str()));
    }
    let mut object = new_object();
    let ghost all = texts(kv@);
    let mut i: usize = 0;
    assert(all.take(0) =~= Seq::<Seq<char>>::empty());
    while i < kv.len()
        invariant
            i <= kv.len(),
            opt_text(json) is None,
            all == texts(kv@),
            entries_object(all.take(i as int)) == Ok::<Map<Seq<char>, JsonView>, Seq<char>>(
                json_entries(object),
            ),
        decreases kv.len() - i,
    {
        let entry = kv[i].as_str();
        proof {
            assert(all.take(i + 1).drop_last() =~= all.take(i as int));
            assert(all.take(i + 1).last() == entry@);
        }
        match split_once(entry) {
            None => {
                proof {
                    lemma_first_error(all, i as int);
                }
                return Err(no_equals_message(quoted(entry).as_str()));
            },
            Some(p) => {
                let (key, text) = p;
                let v = value_or_text(parse(text.as_str()), text);
                insert(&mut object, key, v);
            },
        }
        i += 1;
    }
    assert(all.take(i as int) =~= all);
    Ok(object_value(object))
}

proof fn lemma_error_stays(entries: Seq<Seq<char>>, n: int)
    requires
        0 <= n <= entries.len(),
        entries_object(entries.take(n)) is Err,
    ensures
        entries_object(entries) == entries_object(entries.take(n)),
    decreases entries.len() - n,
{
    if n < entries.len() {
        assert(entries.take(n + 1).drop_last() =~= entries.take(n));
        lemma_error_stays(entries, n + 1);
    } else {
        assert(entries.take(n) =~= entries);
    }
}

proof fn lemma_first_error(entries: Seq<Seq<char>>, i: int)
    requires
        0 <= i < entries.len(),
        entries_object(entries.take(i)) is Ok,
        split_entry(entries[i]) is None,
    ensures
        entries_object(entries) == Err::<Map<Seq<char>, JsonView>, Seq<char>>(
            no_equals_text(debug_form(entries[i])),
        ),
{
    assert(entries.take(i + 1).drop_last() =~= entries.take(i));
    assert(entries.take(i + 1).last() == entries[i]);
    lemma_error_stays(entries, i + 1);
}

/// Entries make an object exactly where each of them has an equals sign.
pub proof fn every_entry_needs_equals(entries: Seq<Seq<char>>)
    ensures
        entries_object(entries) is Ok <==> forall|i: int|
            0 <= i < entries.len() ==> split_entry(#[trigger] entries[i]) is Some,
    decreases entries.len(),
{
    if entries.len() > 0 {
        let rest = entries.drop_last();
        every_entry_needs_equals(rest);
        if forall|i: int| 0 <= i < entries.len() ==> split_entry(#[trigger] entries[i]) is Some {
            assert forall|i: int| 0 <= i < rest.len() implies split_entry(#[trigger] rest[i]) is Some by {
                assert(split_entry(entries[i]) is Some);
            }
            assert(split_entry(entries[entries.len() - 1]) is Some);
        }
        if entries_object(entries) is Ok {
            assert forall|i: int| 0 <= i < entries.len() implies split_entry(#[trigger] entries[i]) is Some by {
                if i < rest.len() {
                    assert(split_entry(rest[i]) is Some);
                }
            }
        }
    }
}

/// Of several entries with one key the last one wins.
pub proof fn last_entry_wins(entries: Seq<Seq<char>>, i: int)
    requires
        entries_object(entries) is Ok,
        0 <= i < entries.len(),
        forall|k: int|
            i < k < entries.len() ==> split_entry(#[trigger] entries[k])->Some_0.0 != split_entry(
                entries[i],
            )->Some_0.0,
    ensures
        ({
            let p = split_entry(entries[i])->Some_0;
            let m = entries_object(entries)->Ok_0;
            m.contains_key(p.0) && m[p.0] == entry_value(p.1)
        }),
    decreases entries.len(),
{
    let rest = entries.drop_last();
    if i < entries.len() - 1 {
        assert forall|k: int| i < k < rest.len() implies split_entry(#[trigger] rest[k])->Some_0.0
            != split_entry(rest[i])->Some_0.0 by {
            assert(split_entry(entries[k])->Some_0.0 != split_entry(entries[i])->Some_0.0);
        }
        last_entry_wins(rest, i);
        assert(split_entry(entries[entries.len() - 1])->Some_0.0 != split_entry(entries[i])->Some_0.0);
    }
}

} // verus!
