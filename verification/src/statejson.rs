use vstd::prelude::*;
use vstd::string::*;
use crate::textutil::CmpRes;
use crate::textutil::find_sub;
use crate::textutil::lemma_find_props;
use crate::textutil::match_at;
use crate::textutil::push_char;
use crate::textutil::spec_find;
use crate::textutil::str_cmp;

verus! {

/// The marker that introduces the embedded state assignment.
pub open spec fn marker() -> Seq<char> {
    "window.__INITIAL_STATE__="@
}

/// The delimiter that closes the script holding the state.
pub open spec fn script_close() -> Seq<char> {
    "</script>"@
}

/// The Unicode White_Space characters, the set the trim removes.
pub open spec fn is_space(c: char) -> bool {
    (9 <= c as u32 && c as u32 <= 13) || c as u32 == 32 || c as u32 == 0x85 || c as u32 == 0xA0
        || c as u32 == 0x1680 || (0x2000 <= c as u32 && c as u32 <= 0x200A) || c as u32 == 0x2028
        || c as u32 == 0x2029 || c as u32 == 0x202F || c as u32 == 0x205F || c as u32 == 0x3000
}

pub open spec fn spec_trim_front(s: Seq<char>) -> Seq<char>
    decreases s.len(),
{
    if s.len() > 0 && is_space(s[0]) {
        spec_trim_front(s.skip(1))
    } else {
        s
    }
}

pub open spec fn spec_trim_back(s: Seq<char>) -> Seq<char>
    decreases s.len(),
{
    if s.len() > 0 && is_space(s.last()) {
        spec_trim_back(s.drop_last())
    } else {
        s
    }
}

/// Whitespace stripped from both ends.
pub open spec fn spec_trim(s: Seq<char>) -> Seq<char> {
    spec_trim_back(spec_trim_front(s))
}

/// Trailing statement terminators stripped.
pub open spec fn spec_strip_semi(s: Seq<char>) -> Seq<char>
    decreases s.len(),
{
    if s.len() > 0 && s.last() == ';' {
        spec_strip_semi(s.drop_last())
    } else {
        s
    }
}

/// Every occurrence of the literal token `undefined` replaced by `null`,
/// left to right without overlap.
pub open spec fn spec_replace_undef(s: Seq<char>) -> Seq<char>
    decreases s.len(),
{
    if s.len() < 9 {
        s
    } else if s.subrange(0, 9) == "undefined"@ {
        "null"@ + spec_replace_undef(s.skip(9))
    } else {
        seq![s[0]] + spec_replace_undef(s.skip(1))
    }
}

/// The normalization applied to an isolated state span before parsing.
pub open spec fn spec_normalize_blob(s: Seq<char>) -> Seq<char> {
    spec_replace_undef(spec_strip_semi(spec_trim(s)))
}

/// The normalized state text a document embeds: the span between the first
/// marker and the next script-closing delimiter, or nothing.
pub open spec fn spec_state_blob(s: Seq<char>) -> Option<Seq<char>> {
    match spec_find(s, marker()) {
        None => None,
        Some(i) => {
            let tail = s.skip(i);
            match spec_find(tail, script_close()) {
                None => None,
                Some(j) => if marker().len() <= j {
                    Some(spec_normalize_blob(tail.subrange(marker().len() as int, j)))
                } else {
                    None
                },
            }
        },
    }
}

/// Executable test for the whitespace characters the trim removes.
fn is_space_char(c: char) -> (r: bool)
    ensures
        r == is_space(c),
{
    let u = c as u32;
    (9 <= u && u <= 13) || u == 32 || u == 0x85 || u == 0xA0 || u == 0x1680 || (0x2000 <= u && u
        <= 0x200A) || u == 0x2028 || u == 0x2029 || u == 0x202F || u == 0x205F || u == 0x3000
}

/// Rewrites every literal `undefined` to `null`.
fn replace_undefined(s: &str) -> (r: String)
    ensures
        r@ == spec_replace_undef(s@),
{
    let n = s.unicode_len();
    let mut out = String::new();
    let mut i: usize = 0;
    proof {
        assert(s@.skip(0) =~= s@);
    }
    proof {
        reveal_strlit("undefined");
        assert("undefined"@.len() == 9);
    }
    while i < n
        invariant
            i <= n,
            n == s@.len(),
            out@ + spec_replace_undef(s@.skip(i as int)) == spec_replace_undef(s@),
        decreases n - i,
    {
        let ghost tail = s@.skip(i as int);
        if match_at(s, "undefined", i) {
            proof {
                reveal_strlit("undefined");
                assert(tail.len() >= 9);
                assert(tail.subrange(0, 9) =~= s@.subrange(i as int, i + 9));
                assert(tail.subrange(0, 9) == "undefined"@);
                assert(tail.skip(9) =~= s@.skip(i as int + 9));
            }
            out.append("null");
            i = i + 9;
        } else {
            let c = s.get_char(i);
            proof {
                reveal_strlit("undefined");
                assert(tail[0] == c);
                assert(tail.skip(1) =~= s@.skip(i as int + 1));
                if tail.len() >= 9 {
                    assert(tail.subrange(0, 9) =~= s@.subrange(i as int, i + 9));
                    assert(tail.subrange(0, 9) != "undefined"@);
                }
            }
            push_char(&mut out, c);
            i = i + 1;
        }
    }
    proof {
        assert(s@.skip(n as int).len() == 0);
        assert(out@ + spec_replace_undef(s@.skip(n as int)) =~= out@);
    }
    out
}

/// Trims whitespace, strips trailing terminators, and rewrites `undefined`.
fn normalize_blob(s: &str) -> (r: String)
    ensures
        r@ == spec_normalize_blob(s@),
{
    let n = s.unicode_len();
    let mut lo: usize = 0;
    proof {
        assert(s@.skip(0) =~= s@);
    }
    while lo < n && is_space_char(s.get_char(lo))
        invariant
            lo <= n,
            n == s@.len(),
            spec_trim_front(s@) == spec_trim_front(s@.skip(lo as int)),
        decreases n - lo,
    {
        proof {
            assert(s@.skip(lo as int)[0] == s@[lo as int]);
            assert(s@.skip(lo as int).skip(1) =~= s@.skip(lo as int + 1));
        }
        lo = lo + 1;
    }
    proof {
        assert(spec_trim_front(s@.skip(lo as int)) == s@.skip(lo as int)) by {
            if s@.skip(lo as int).len() > 0 {
                assert(s@.skip(lo as int)[0] == s@[lo as int]);
            }
        }
        assert(spec_trim_front(s@) == s@.skip(lo as int));
    }
    let mut hi: usize = n;
    proof {
        assert(s@.skip(lo as int) =~= s@.subrange(lo as int, hi as int));
    }
    while hi > lo && is_space_char(s.get_char(hi - 1))
        invariant
            lo <= hi <= n,
            n == s@.len(),
            spec_trim_back(s@.skip(lo as int)) == spec_trim_back(s@.subrange(lo as int, hi as int)),
        decreases hi,
    {
        proof {
            let cur = s@.subrange(lo as int, hi as int);
            assert(cur.last() == s@[hi - 1]);
            assert(cur.drop_last() =~= s@.subrange(lo as int, hi as int - 1));
        }
        hi = hi - 1;
    }
    proof {
        let cur = s@.subrange(lo as int, hi as int);
        assert(spec_trim_back(cur) == cur) by {
            if cur.len() > 0 {
                assert(cur.last() == s@[hi - 1]);
            }
        }
        assert(spec_trim(s@) == s@.subrange(lo as int, hi as int));
    }
    let ghost trimmed = s@.subrange(lo as int, hi as int);
    let mut hj: usize = hi;
    proof {
        assert(trimmed =~= s@.subrange(lo as int, hj as int));
    }
    while hj > lo && s.get_char(hj - 1) == ';'
        invariant
            lo <= hj <= hi <= n,
            n == s@.len(),
            trimmed == s@.subrange(lo as int, hi as int),
            spec_strip_semi(trimmed) == spec_strip_semi(s@.subrange(lo as int, hj as int)),
        decreases hj,
    {
        proof {
            let cur = s@.subrange(lo as int, hj as int);
            assert(cur.last() == s@[hj - 1]);
            assert(cur.drop_last() =~= s@.subrange(lo as int, hj as int - 1));
        }
        hj = hj - 1;
    }
    proof {
        let cur = s@.subrange(lo as int, hj as int);
        assert(spec_strip_semi(cur) == cur) by {
            if cur.len() > 0 {
                assert(cur.last() == s@[hj - 1]);
            }
        }
        assert(spec_strip_semi(spec_trim(s@)) == s@.subrange(lo as int, hj as int));
    }
    let stripped = s.substring_char(lo, hj);
    replace_undefined(stripped)
}

/// Isolates and normalizes the embedded state text of a document, if any.
pub fn extract_state_blob(html: &str) -> (r: Option<String>)
    ensures
        match r {
            Some(b) => spec_state_blob(html@) == Some(b@),
            None => spec_state_blob(html@) is None,
        },
{
    let i = match find_sub(html, "window.__INITIAL_STATE__=") {
        Some(i) => i,
        None => {
            return None;
        },
    };
    let n = html.unicode_len();
    proof {
        lemma_find_props(html@, marker());
        assert(i + marker().len() <= n);
    }
    let tail = html.substring_char(i, n);
    proof {
        assert(tail@ =~= html@.skip(i as int));
    }
    let j = match find_sub(tail, "</script>") {
        Some(j) => j,
        None => {
            return None;
        },
    };
    let mlen = "window.__INITIAL_STATE__=".unicode_len();
    if j < mlen {
        return None;
    }
    proof {
        lemma_find_props(tail@, script_close());
        assert(j <= tail@.len());
    }
    let span = tail.substring_char(mlen, j);
    Some(normalize_blob(span))
}

/// A standalone Unicode-whitespace trim of both ends.
pub fn trim_ws(s: &str) -> (r: String)
    ensures
        r@ == spec_trim(s@),
{
    let n = s.unicode_len();
    let mut lo: usize = 0;
    proof {
        assert(s@.skip(0) =~= s@);
    }
    while lo < n && is_space_char(s.get_char(lo))
        invariant
            lo <= n,
            n == s@.len(),
            spec_trim_front(s@) == spec_trim_front(s@.skip(lo as int)),
        decreases n - lo,
    {
        proof {
            assert(s@.skip(lo as int)[0] == s@[lo as int]);
            assert(s@.skip(lo as int).skip(1) =~= s@.skip(lo as int + 1));
        }
        lo = lo + 1;
    }
    proof {
        assert(spec_trim_front(s@.skip(lo as int)) == s@.skip(lo as int)) by {
            if s@.skip(lo as int).len() > 0 {
                assert(s@.skip(lo as int)[0] == s@[lo as int]);
            }
        }
        assert(spec_trim_front(s@) == s@.skip(lo as int));
    }
    let mut hi: usize = n;
    proof {
        assert(s@.skip(lo as int) =~= s@.subrange(lo as int, hi as int));
    }
    while hi > lo && is_space_char(s.get_char(hi - 1))
        invariant
            lo <= hi <= n,
            n == s@.len(),
            spec_trim_back(s@.skip(lo as int)) == spec_trim_back(s@.subrange(lo as int, hi as int)),
        decreases hi,
    {
        proof {
            let cur = s@.subrange(lo as int, hi as int);
            assert(cur.last() == s@[hi - 1]);
            assert(cur.drop_last() =~= s@.subrange(lo as int, hi as int - 1));
        }
        hi = hi - 1;
    }
    proof {
        let cur = s@.subrange(lo as int, hi as int);
        assert(spec_trim_back(cur) == cur) by {
            if cur.len() > 0 {
                assert(cur.last() == s@[hi - 1]);
            }
        }
        assert(spec_trim(s@) == s@.subrange(lo as int, hi as int));
    }
    String::from_str(s.substring_char(lo, hi))
}

/// The parts of a parsed JSON value the navigation reads: strings, arrays,
/// and objects as ordered member lists; everything else is opaque.
pub enum JsonNode {
    Str(String),
    Arr(Vec<JsonNode>),
    Obj(Vec<(String, JsonNode)>),
    Other,
}

/// The member of an ordered pair list under a key, first match.
pub open spec fn spec_obj_get(pairs: Seq<(String, JsonNode)>, key: Seq<char>) -> Option<JsonNode>
    decreases pairs.len(),
{
    if pairs.len() == 0 {
        None
    } else if pairs[0].0@ == key {
        Some(pairs[0].1)
    } else {
        spec_obj_get(pairs.skip(1), key)
    }
}

/// The member of an object node under a key; `None` for other nodes.
pub open spec fn spec_get(n: JsonNode, key: Seq<char>) -> Option<JsonNode> {
    match n {
        JsonNode::Obj(pairs) => spec_obj_get(pairs@, key),
        _ => None,
    }
}

/// The first member value of an object node, in the order the parse kept.
pub open spec fn spec_first_entry(n: JsonNode) -> Option<JsonNode> {
    match n {
        JsonNode::Obj(pairs) => if pairs@.len() > 0 {
            Some(pairs@[0].1)
        } else {
            None
        },
        _ => None,
    }
}

/// The note object behind the fixed path: note, noteDetailMap, first
/// entry, note.
pub open spec fn spec_note(n: JsonNode) -> Option<JsonNode> {
    match spec_get(n, "note"@) {
        Some(nv) => match spec_get(nv, "noteDetailMap"@) {
            Some(m) => match spec_first_entry(m) {
                Some(detail) => spec_get(detail, "note"@),
                None => None,
            },
            None => None,
        },
        None => None,
    }
}

/// A string member of the note, or empty where any step is missing.
pub open spec fn spec_str_field(note: Option<JsonNode>, key: Seq<char>) -> Seq<char> {
    match note {
        Some(nv) => match spec_get(nv, key) {
            Some(JsonNode::Str(t)) => t@,
            _ => Seq::<char>::empty(),
        },
        None => Seq::<char>::empty(),
    }
}

/// The title drawn from a parsed state value.
pub open spec fn spec_note_title(n: JsonNode) -> Seq<char> {
    spec_str_field(spec_note(n), "title"@)
}

/// The description drawn from a parsed state value.
pub open spec fn spec_note_desc(n: JsonNode) -> Seq<char> {
    spec_str_field(spec_note(n), "desc"@)
}

/// The urlDefault strings of the image list's members, in order.
pub open spec fn spec_url_list(items: Seq<JsonNode>) -> Seq<Seq<char>>
    decreases items.len(),
{
    if items.len() == 0 {
        Seq::<Seq<char>>::empty()
    } else {
        (match spec_get(items[0], "urlDefault"@) {
            Some(JsonNode::Str(t)) => seq![t@],
            _ => Seq::<Seq<char>>::empty(),
        }) + spec_url_list(items.skip(1))
    }
}

/// The image locations drawn from a parsed state value.
pub open spec fn spec_note_images(n: JsonNode) -> Seq<Seq<char>> {
    match spec_note(n) {
        Some(nv) => match spec_get(nv, "imageList"@) {
            Some(JsonNode::Arr(items)) => spec_url_list(items@),
            _ => Seq::<Seq<char>>::empty(),
        },
        None => Seq::<Seq<char>>::empty(),
    }
}

/// Looks a key up in an object node.
#[verifier::loop_isolation(false)]
fn obj_get<'a>(n: &'a JsonNode, key: &str) -> (r: Option<&'a JsonNode>)
    ensures
        match r {
            Some(v) => spec_get(*n, key@) == Some(*v),
            None => spec_get(*n, key@) is None,
        },
{
    match n {
        JsonNode::Obj(pairs) => {
            let mut i: usize = 0;
            proof {
                assert(pairs@.skip(0) =~= pairs@);
            }
            while i < pairs.len()
                invariant
                    i <= pairs@.len(),
                    spec_obj_get(pairs@, key@) == spec_obj_get(pairs@.skip(i as int), key@),
                decreases pairs@.len() - i,
            {
                proof {
                    assert(pairs@.skip(i as int)[0] == pairs@[i as int]);
                    assert(pairs@.skip(i as int).skip(1) =~= pairs@.skip(i as int + 1));
                }
                let c = str_cmp(pairs[i].0.as_str(), key);
                match c {
                    CmpRes::Eq => {
                        proof {
                            assert(pairs@.skip(i as int)[0].0@ == key@);
                            assert(spec_obj_get(pairs@.skip(i as int), key@) == Some(
                                pairs@[i as int].1,
                            ));
                            assert(spec_get(*n, key@) == Some(pairs@[i as int].1));
                        }
                        return Some(&pairs[i].1);
                    },
                    _ => {},
                }
                proof {
                    assert(pairs@.skip(i as int)[0].0@ != key@);
                }
                i = i + 1;
            }
            proof {
                assert(pairs@.skip(pairs@.len() as int).len() == 0);
            }
            None
        },
        _ => None,
    }
}

/// The first member value of an object node.
fn first_entry<'a>(n: &'a JsonNode) -> (r: Option<&'a JsonNode>)
    ensures
        match r {
            Some(v) => spec_first_entry(*n) == Some(*v),
            None => spec_first_entry(*n) is None,
        },
{
    match n {
        JsonNode::Obj(pairs) => {
            if pairs.len() > 0 {
                Some(&pairs[0].1)
            } else {
                None
            }
        },
        _ => None,
    }
}

/// Walks the fixed path through a parsed state value: the first entry of
/// the note-detail map, then its note's title, description and image list.
/// Every step that fails leaves that field alone empty.
fn note_fields(n: &JsonNode) -> (r: (String, String, Vec<String>))
    ensures
        r.0@ == spec_note_title(*n),
        r.1@ == spec_note_desc(*n),
        r.2@.map_values(|s: String| s@) == spec_note_images(*n),
{
    let mut title = String::new();
    let mut description = String::new();
    let mut images: Vec<String> = Vec::new();
    proof {
        assert(images@.map_values(|s: String| s@) =~= Seq::<Seq<char>>::empty());
    }
    let note: Option<&JsonNode> = match obj_get(n, "note") {
        Some(nv) => match obj_get(nv, "noteDetailMap") {
            Some(m) => match first_entry(m) {
                Some(detail) => obj_get(detail, "note"),
                None => None,
            },
            None => None,
        },
        None => None,
    };
    proof {
        match note {
            Some(v) => {
                assert(spec_note(*n) == Some(*v));
            },
            None => {
                assert(spec_note(*n) is None);
            },
        }
    }
    match note {
        Some(nv) => {
            match obj_get(nv, "title") {
                Some(t) => match t {
                    JsonNode::Str(s) => {
                        title = s.clone();
                    },
                    _ => {},
                },
                None => {},
            }
            match obj_get(nv, "desc") {
                Some(d) => match d {
                    JsonNode::Str(s) => {
                        description = s.clone();
                    },
                    _ => {},
                },
                None => {},
            }
            match obj_get(nv, "imageList") {
                Some(il) => match il {
                    JsonNode::Arr(items) => {
                        let mut i: usize = 0;
                        proof {
                            assert(items@.skip(0) =~= items@);
                        }
                        while i < items.len()
                            invariant
                                i <= items@.len(),
                                images@.map_values(|s: String| s@) + spec_url_list(
                                    items@.skip(i as int),
                                ) == spec_url_list(items@),
                            decreases items@.len() - i,
                        {
                            proof {
                                assert(items@.skip(i as int)[0] == items@[i as int]);
                                assert(items@.skip(i as int).skip(1) =~= items@.skip(i as int + 1));
                            }
                            let ghost prev = images@.map_values(|s: String| s@);
                            match obj_get(&items[i], "urlDefault") {
                                Some(u) => match u {
                                    JsonNode::Str(s) => {
                                        images.push(s.clone());
                                        proof {
                                            assert(images@.map_values(|s: String| s@) =~= prev
                                                + seq![s@]);
                                        }
                                    },
                                    _ => {},
                                },
                                None => {},
                            }
                            proof {
                                assert(prev + spec_url_list(items@.skip(i as int)) =~= images@
                                    .map_values(|s: String| s@) + spec_url_list(
                                    items@.skip(i as int + 1),
                                ));
                            }
                            i = i + 1;
                        }
                        proof {
                            assert(spec_url_list(items@.skip(items@.len() as int)).len() == 0);
                            assert(images@.map_values(|s: String| s@) + spec_url_list(
                                items@.skip(items@.len() as int),
                            ) =~= images@.map_values(|s: String| s@));
                        }
                    },
                    _ => {},
                },
                None => {},
            }
        },
        None => {},
    }
    (title, description, images)
}

#[verifier::external_type_specification]
#[verifier::external_body]
pub struct ExValue(serde_json::Value);

/// What parsing a text and remodeling it yields: a function of the text
/// alone, since the parser keeps object members in a fixed order for a
/// given text.
pub uninterp spec fn json_of(s: Seq<char>) -> Option<JsonNode>;

/// Relies on serde_json::Value's accessors: rewrites a parsed value into
/// the library's model, keeping each object's own member order. Only
/// `parse_tree`'s body calls it.
#[verifier::external_body]
fn json_to_node(v: &serde_json::Value) -> (r: JsonNode) {
    match v {
        serde_json::Value::String(s) => JsonNode::Str(s.clone()),
        serde_json::Value::Array(items) => JsonNode::Arr(items.iter().map(json_to_node).collect()),
        serde_json::Value::Object(m) => JsonNode::Obj(
            m.iter().map(|(k, x)| (k.clone(), json_to_node(x))).collect(),
        ),
        _ => JsonNode::Other,
    }
}

/// Relies on serde_json::from_str: parses JSON text into a value tree,
/// handed over in the library's model; `None` where the text is not valid
/// JSON.
#[verifier::external_body]
fn parse_tree(s: &str) -> (r: Option<JsonNode>)
    ensures
        r == json_of(s@),
{
    serde_json::from_str::<serde_json::Value>(s).ok().map(|v| json_to_node(&v))
}

/// The title structured extraction yields for a document.
pub open spec fn spec_structured_title(html: Seq<char>) -> Seq<char> {
    match spec_state_blob(html) {
        Some(b) => match json_of(b) {
            Some(n) => spec_note_title(n),
            None => Seq::<char>::empty(),
        },
        None => Seq::<char>::empty(),
    }
}

/// The description structured extraction yields for a document.
pub open spec fn spec_structured_desc(html: Seq<char>) -> Seq<char> {
    match spec_state_blob(html) {
        Some(b) => match json_of(b) {
            Some(n) => spec_note_desc(n),
            None => Seq::<char>::empty(),
        },
        None => Seq::<char>::empty(),
    }
}

/// The image locations structured extraction yields for a document.
pub open spec fn spec_structured_images(html: Seq<char>) -> Seq<Seq<char>> {
    match spec_state_blob(html) {
        Some(b) => match json_of(b) {
            Some(n) => spec_note_images(n),
            None => Seq::<Seq<char>>::empty(),
        },
        None => Seq::<Seq<char>>::empty(),
    }
}

/// Attempts structured extraction on a whole document: isolates the state
/// blob and, where it parses, draws the three fields from it; a document
/// without a blob, or with one that does not parse, yields empty fields,
/// the signal to fall through to the selector-based extraction.
pub fn structured_fields(html: &str) -> (r: (String, String, Vec<String>))
    ensures
        r.0@ == spec_structured_title(html@),
        r.1@ == spec_structured_desc(html@),
        r.2@.map_values(|s: String| s@) == spec_structured_images(html@),
{
    match extract_state_blob(html) {
        None => {
            let v: Vec<String> = Vec::new();
            proof {
                assert(v@.map_values(|s: String| s@) =~= Seq::<Seq<char>>::empty());
            }
            (String::new(), String::new(), v)
        },
        Some(blob) => match parse_tree(blob.as_str()) {
            None => {
                let v: Vec<String> = Vec::new();
                proof {
                    assert(v@.map_values(|s: String| s@) =~= Seq::<Seq<char>>::empty());
                }
                (String::new(), String::new(), v)
            },
            Some(node) => note_fields(&node),
        },
    }
}

} // verus!
