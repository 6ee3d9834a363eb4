//! YAML trees and the nodes they hold: each key of a mapping is a keyword, maybe followed
//! by a name, and its value is a mapping of child nodes, a scalar, a list or nothing.
use vstd::prelude::*;
use super::error::Error;
use super::node::{Node, NodeChild, NodeView, NodeChildView, Number, Value, ValueView, nodes_view, values_view,
    lemma_nodes_view, lemma_values_view, lemma_nodes_view_push};
use crate::text::{chars_of, trimmed_string_of, trim};
#[allow(unused_imports)]
use vstd::view::View as ViewTrait;

verus! {

/// A number of a YAML tree: an integer that fits in an `i64`, a float held as its
/// IEEE-754 bit pattern, or a larger unsigned integer.
#[derive(Debug, PartialEq, Clone, Copy)]
pub enum YamlNumber {
    Integer(i64),
    Float(u64),
    Unsigned(u64),
}

/// A YAML value. A mapping keeps its entries in order, each key once.
#[derive(Debug, PartialEq)]
pub enum YamlValue {
    Null,
    Bool(bool),
    Number(YamlNumber),
    String(String),
    Sequence(Vec<YamlValue>),
    Mapping(Vec<(YamlValue, YamlValue)>),
    Tagged,
}

pub ghost enum YamlValueView {
    Null,
    Bool(bool),
    Number(YamlNumber),
    String(Seq<char>),
    Sequence(Seq<YamlValueView>),
    Mapping(Seq<(YamlValueView, YamlValueView)>),
    Tagged,
}

pub open spec fn yaml_view(v: YamlValue) -> YamlValueView
    decreases v,
{
    match v {
        YamlValue::Null => YamlValueView::Null,
        YamlValue::Bool(b) => YamlValueView::Bool(b),
        YamlValue::Number(n) => YamlValueView::Number(n),
        YamlValue::String(s) => YamlValueView::String(s@),
        YamlValue::Sequence(vs) => YamlValueView::Sequence(yamls_view(vs@)),
        YamlValue::Mapping(es) => YamlValueView::Mapping(entries_view(es@)),
        YamlValue::Tagged => YamlValueView::Tagged,
    }
}

pub open spec fn yamls_view(s: Seq<YamlValue>) -> Seq<YamlValueView>
    decreases s,
{
    if s.len() == 0 {
        Seq::empty()
    } else {
        yamls_view(s.drop_last()).push(yaml_view(s.last()))
    }
}

pub open spec fn entries_view(s: Seq<(YamlValue, YamlValue)>) -> Seq<(YamlValueView, YamlValueView)>
    decreases s,
{
    if s.len() == 0 {
        Seq::empty()
    } else {
        entries_view(s.drop_last()).push((yaml_view(s.last().0), yaml_view(s.last().1)))
    }
}

impl View for YamlValue {
    type V = YamlValueView;

    open spec fn view(&self) -> YamlValueView {
        yaml_view(*self)
    }
}

pub proof fn lemma_yamls_view(s: Seq<YamlValue>)
    ensures
        yamls_view(s).len() == s.len(),
        forall|i: int| 0 <= i < s.len() ==> #[trigger] yamls_view(s)[i] == yaml_view(s[i]),
    decreases s.len(),
{
    if s.len() > 0 {
        lemma_yamls_view(s.drop_last());
        assert forall|i: int| 0 <= i < s.len() implies #[trigger] yamls_view(s)[i] == yaml_view(s[i]) by {
            if i < s.len() - 1 {
                assert(s.drop_last()[i] == s[i]);
            }
        }
    }
}

pub proof fn lemma_entries_view(s: Seq<(YamlValue, YamlValue)>)
    ensures
        entries_view(s).len() == s.len(),
        forall|i: int| 0 <= i < s.len() ==> #[trigger] entries_view(s)[i] == (yaml_view(s[i].0), yaml_view(s[i].1)),
    decreases s.len(),
{
    if s.len() > 0 {
        lemma_entries_view(s.drop_last());
        assert forall|i: int| 0 <= i < s.len() implies #[trigger] entries_view(s)[i] == (yaml_view(s[i].0), yaml_view(s[i].1)) by {
            if i < s.len() - 1 {
                assert(s.drop_last()[i] == s[i]);
            }
        }
    }
}

/// The keywords a key may start with, in the order they are tried: a keyword that starts
/// with another comes before it.
pub open spec fn keywords() -> Seq<Seq<char>> {
    seq![
        "foreign key"@,
        "initially deferred"@,
        "not null"@,
        "on delete"@,
        "on update"@,
        "owned by"@,
        "primary key"@,
        "as"@,
        "cache"@,
        "check"@,
        "column"@,
        "constraint"@,
        "cycle"@,
        "default"@,
        "deferrable"@,
        "function"@,
        "volatility"@,
        "index"@,
        "language"@,
        "match"@,
        "maxvalue"@,
        "method"@,
        "minvalue"@,
        "on"@,
        "references"@,
        "returns"@,
        "schema"@,
        "sequence"@,
        "start"@,
        "table"@,
        "type"@,
        "unique"@,
        "view"@
    ]
}

fn keyword_list() -> (r: Vec<&'static str>)
    ensures
        r@.map_values(|s: &'static str| s@) == keywords(),
{
    let mut v: Vec<&'static str> = Vec::new();
    v.push("foreign key");
    v.push("initially deferred");
    v.push("not null");
    v.push("on delete");
    v.push("on update");
    v.push("owned by");
    v.push("primary key");
    v.push("as");
    v.push("cache");
    v.push("check");
    v.push("column");
    v.push("constraint");
    v.push("cycle");
    v.push("default");
    v.push("deferrable");
    v.push("function");
    v.push("volatility");
    v.push("index");
    v.push("language");
    v.push("match");
    v.push("maxvalue");
    v.push("method");
    v.push("minvalue");
    v.push("on");
    v.push("references");
    v.push("returns");
    v.push("schema");
    v.push("sequence");
    v.push("start");
    v.push("table");
    v.push("type");
    v.push("unique");
    v.push("view");
    assert(v@.map_values(|s: &'static str| s@) =~= keywords());
    v
}

/// What lower-casing a string gives.
pub uninterp spec fn lowercase_of(s: Seq<char>) -> Seq<char>;

/// Lower-cases a string with `str::to_lowercase`, which maps each character by the
/// Unicode `Lowercase` mapping; what that gives is left to the name `lowercase_of`.
#[verifier::external_body]
fn lowercase(s: &str) -> (r: String)
    ensures
        r@ == lowercase_of(s@),
{
    s.to_lowercase()
}

pub open spec fn starts_with(s: Seq<char>, prefix: Seq<char>) -> bool {
    s.len() >= prefix.len() && s.subrange(0, prefix.len() as int) == prefix
}

/// The first keyword that the text starts with.
pub open spec fn first_keyword(s: Seq<char>, kws: Seq<Seq<char>>) -> Option<Seq<char>>
    decreases kws.len(),
{
    if kws.len() == 0 {
        None
    } else if starts_with(s, kws[0]) {
        Some(kws[0])
    } else {
        first_keyword(s, kws.subrange(1, kws.len() as int))
    }
}

/// How many bytes a character takes in UTF-8.
pub open spec fn utf8_len(c: char) -> int {
    if (c as u32) < 0x80 {
        1
    } else if (c as u32) < 0x800 {
        2
    } else if (c as u32) < 0x10000 {
        3
    } else {
        4
    }
}

/// The number of characters of `s` whose UTF-8 encoding takes exactly `b` bytes, if some
/// prefix of `s` does: the character index at which the byte offset `b` falls between
/// two characters.
pub open spec fn char_index_at(s: Seq<char>, b: int) -> Option<int>
    decreases s.len(),
{
    if b == 0 {
        Some(0)
    } else if b < 0 || s.len() == 0 {
        None
    } else {
        match char_index_at(s.drop_first(), b - utf8_len(s[0])) {
            Some(i) => Some(i + 1),
            None => None,
        }
    }
}

pub open spec fn invalid_key(key: Seq<char>) -> Seq<char> {
    "Invalid key: "@ + key
}

/// The key can be cut after the keyword that its lower-cased form starts with: the
/// keyword's length in bytes (keywords are ASCII) falls between two characters of the
/// key. The key is cut there whatever characters came before.
pub open spec fn key_cut_ok(key: Seq<char>, lower: Seq<char>) -> bool {
    match first_keyword(lower, keywords()) {
        Some(kw) => char_index_at(key, kw.len() as int) is Some,
        None => true,
    }
}

/// A key that can be read: it is cut after its keyword on a character boundary.
pub open spec fn key_readable(key: Seq<char>) -> bool {
    key_cut_ok(key, lowercase_of(key))
}

/// The node a key makes, given the key lower-cased: its type is the first keyword the
/// lower-cased key starts with, written in ASCII letters, and its name the rest of the key
/// after as many bytes as the keyword has, without the whitespace at its ends, if any is
/// left. A key that starts with no keyword is refused. A key that cannot be cut there
/// (see `key_cut_ok`) is outside what the functions below accept.
pub open spec fn key_node_from(key: Seq<char>, lower: Seq<char>) -> Result<NodeView, Seq<char>> {
    match first_keyword(lower, keywords()) {
        None => Err(invalid_key(key)),
        Some(kw) => match char_index_at(key, kw.len() as int) {
            Some(i) => {
                let name = trim(key.subrange(i, key.len() as int));
                Ok(NodeView { typ: kw, name: if name.len() == 0 { None } else { Some(name) }, child: None })
            },
            None => Err(invalid_key(key)),
        },
    }
}

/// The node a key makes.
pub open spec fn key_node(key: Seq<char>) -> Result<NodeView, Seq<char>> {
    key_node_from(key, lowercase_of(key))
}

fn starts_with_at(s: &Vec<char>, prefix: &Vec<char>) -> (r: bool)
    ensures
        r == starts_with(s@, prefix@),
{
    if s.len() < prefix.len() {
        return false;
    }
    for i in 0..prefix.len()
        invariant
            s@.len() >= prefix@.len(),
            forall|j: int| 0 <= j < i ==> s@[j] == prefix@[j],
    {
        if s[i] != prefix[i] {
            proof {
                assert(s@.subrange(0, prefix@.len() as int)[i as int] != prefix@[i as int]);
            }
            return false;
        }
    }
    assert(s@.subrange(0, prefix@.len() as int) =~= prefix@);
    true
}

fn utf8_width(c: char) -> (r: usize)
    ensures
        r == utf8_len(c),
{
    let u = c as u32;
    if u < 0x80 {
        1
    } else if u < 0x800 {
        2
    } else if u < 0x10000 {
        3
    } else {
        4
    }
}

proof fn lemma_char_index_at_step(s: Seq<char>, j: int, b: int)
    requires
        0 <= j < s.len(),
        b > 0,
    ensures
        char_index_at(s.skip(j), b) == match char_index_at(s.skip(j + 1), b - utf8_len(s[j])) {
            Some(i) => Some(i + 1),
            None => None::<int>,
        },
{
    assert(s.skip(j).drop_first() =~= s.skip(j + 1));
    assert(s.skip(j)[0] == s[j]);
}

/// The character index at which the byte offset `b` falls between two characters.
fn char_index_at_bytes(cs: &Vec<char>, b: usize) -> (r: Option<usize>)
    ensures
        r matches Some(j) ==> char_index_at(cs@, b as int) == Some(j as int),
        r is None ==> char_index_at(cs@, b as int) is None,
{
    let mut j: usize = 0;
    let mut acc: usize = 0;
    proof {
        assert(cs@.skip(0) =~= cs@);
    }
    while acc < b
        invariant
            j <= cs@.len(),
            acc <= b,
            j <= acc,
            char_index_at(cs@, b as int) == match char_index_at(cs@.skip(j as int), b - acc) {
                Some(i) => Some(i + j),
                None => None::<int>,
            },
        decreases b - acc,
    {
        if j == cs.len() {
            assert(cs@.skip(j as int).len() == 0);
            return None;
        }
        let step = utf8_width(cs[j]);
        proof {
            lemma_char_index_at_step(cs@, j as int, b - acc);
        }
        if step > b - acc {
            assert(char_index_at(cs@.skip(j + 1), b - acc - step) is None);
            return None;
        }
        acc = acc + step;
        j = j + 1;
    }
    assert(char_index_at(cs@.skip(j as int), 0) == Some(0int));
    Some(j)
}

/// The first keyword that the lower-cased key starts with.
fn first_keyword_in(lower_chars: &Vec<char>) -> (r: Option<&'static str>)
    ensures
        match first_keyword(lower_chars@, keywords()) {
            Some(kw) => r matches Some(k) && k@ == kw,
            None => r is None,
        },
{
    let kws = keyword_list();
    let ghost all = keywords();
    let mut found: Option<&'static str> = None;
    proof {
        assert(all.subrange(0, all.len() as int) =~= all);
    }
    let mut i: usize = 0;
    while i < kws.len() && found.is_none()
        invariant
            all == keywords(),
            kws@.map_values(|s: &'static str| s@) == all,
            kws@.len() == all.len(),
            i <= kws@.len(),
            found is None ==> first_keyword(lower_chars@, all) == first_keyword(lower_chars@, all.subrange(i as int, all.len() as int)),
            found matches Some(kw) ==> first_keyword(lower_chars@, all) == Some(kw@),
        decreases kws@.len() - i,
    {
        let kw = kws[i];
        let kw_chars = chars_of(kw);
        let ghost rest = all.subrange(i as int, all.len() as int);
        proof {
            assert(rest[0] == kw@);
            assert(rest.subrange(1, rest.len() as int) =~= all.subrange(i + 1, all.len() as int));
        }
        if starts_with_at(lower_chars, &kw_chars) {
            found = Some(kw);
        }
        i = i + 1;
    }
    proof {
        if found is None {
            assert(i == all.len());
            assert(all.subrange(all.len() as int, all.len() as int).len() == 0);
        }
    }
    found
}

/// Tells whether a key can be cut after the keyword that its lower-cased form starts with.
pub fn key_cut_fits(key: &str, lower: &str) -> (r: bool)
    ensures
        r == key_cut_ok(key@, lower@),
{
    let lower_chars = chars_of(lower);
    match first_keyword_in(&lower_chars) {
        None => true,
        Some(kw) => {
            let cs = chars_of(key);
            let kw_chars = chars_of(kw);
            char_index_at_bytes(&cs, kw_chars.len()).is_some()
        },
    }
}

/// Makes the node of a key from the key and its lower-cased form.
pub fn node_from_mapping_key(key: &str, lower: &str) -> (r: Result<Node, Error>)
    requires
        key_cut_ok(key@, lower@),
    ensures
        match key_node_from(key@, lower@) {
            Ok(n) => r is Ok && r->Ok_0@ == n,
            Err(m) => r is Err && r->Err_0.message@ == m,
        },
{
    let lower_chars = chars_of(lower);
    let found = first_keyword_in(&lower_chars);
    let mut message = "Invalid key: ".to_owned();
    message.append(key);
    match found {
        None => Err(Error::new(message)),
        Some(kw) => {
            let cs = chars_of(key);
            let kw_chars = chars_of(kw);
            let i = match char_index_at_bytes(&cs, kw_chars.len()) {
                Some(i) => i,
                None => return Err(Error::new(message)),
            };
            proof {
                assert(char_index_at(key@, kw@.len() as int) == Some(i as int));
                lemma_char_index_at_bound(key@, kw@.len() as int);
            }
            let name = trimmed_string_of(&cs, i, cs.len());
            let mut node = Node::new(kw);
            if !name.as_str().is_empty() {
                node.name = Some(name);
            }
            Ok(node)
        },
    }
}

proof fn lemma_char_index_at_bound(s: Seq<char>, b: int)
    ensures
        char_index_at(s, b) matches Some(i) ==> 0 <= i <= s.len(),
    decreases s.len(),
{
    if b != 0 && b >= 0 && s.len() > 0 {
        lemma_char_index_at_bound(s.drop_first(), b - utf8_len(s[0]));
    }
}

/// Makes the node of a key. The key must be cut after its keyword on a character
/// boundary.
pub fn create_node_from_mapping_key(key: &str) -> (r: Result<Node, Error>)
    requires
        key_readable(key@),
    ensures
        match key_node(key@) {
            Ok(n) => r is Ok && r->Ok_0@ == n,
            Err(m) => r is Err && r->Err_0.message@ == m,
        },
{
    let lower = lowercase(key);
    node_from_mapping_key(key, lower.as_str())
}

/// Makes the node of a key where the key can be cut after its keyword on a character
/// boundary, and gives `None` for a key that cannot.
pub fn try_create_node_from_mapping_key(key: &str) -> (r: Option<Result<Node, Error>>)
    ensures
        r is None <==> !key_readable(key@),
        r matches Some(x) ==> match key_node(key@) {
            Ok(n) => x is Ok && x->Ok_0@ == n,
            Err(m) => x is Err && x->Err_0.message@ == m,
        },
{
    let lower = lowercase(key);
    if key_cut_fits(key, lower.as_str()) {
        Some(node_from_mapping_key(key, lower.as_str()))
    } else {
        None
    }
}

/// The message for a key that is not a string.
pub open spec fn non_string_key() -> Seq<char> {
    "Invalid key: not a string"@
}

/// The message for a value that is neither a string, a number, a boolean nor a list.
pub open spec fn invalid_value() -> Seq<char> {
    "Invalid value: not a string, number, boolean or list"@
}

/// The message for a number that is neither a float nor an integer of 64 bits.
pub open spec fn invalid_number() -> Seq<char> {
    "Invalid number: out of the range of a 64-bit integer"@
}

/// A value that does not hold a mapping, at any depth.
pub open spec fn value_ok(v: YamlValueView) -> bool
    decreases v,
{
    match v {
        YamlValueView::Mapping(_) => false,
        YamlValueView::Sequence(vs) => values_ok(vs),
        _ => true,
    }
}

pub open spec fn values_ok(vs: Seq<YamlValueView>) -> bool
    decreases vs,
{
    if vs.len() == 0 {
        true
    } else {
        values_ok(vs.drop_last()) && value_ok(vs[vs.len() - 1])
    }
}

/// A mapping whose string keys can each be cut after their keyword, and whose values are
/// mappings of the same kind, nothing, or values that hold no mapping.
pub open spec fn mapping_ok(es: Seq<(YamlValueView, YamlValueView)>) -> bool
    decreases es,
{
    if es.len() == 0 {
        true
    } else {
        mapping_ok(es.drop_last()) && entry_ok(es[es.len() - 1])
    }
}

pub open spec fn entry_ok(e: (YamlValueView, YamlValueView)) -> bool
    decreases e,
{
    &&& e.0 matches YamlValueView::String(k) ==> key_readable(k)
    &&& match e.1 {
        YamlValueView::Mapping(m) => mapping_ok(m),
        YamlValueView::Null => true,
        v => value_ok(v),
    }
}

/// What a YAML value reads as, as the value of a node.
pub open spec fn parse_value(v: YamlValueView) -> Result<ValueView, Seq<char>>
    decreases v,
{
    match v {
        YamlValueView::String(s) => Ok(ValueView::String(s)),
        YamlValueView::Number(YamlNumber::Integer(i)) => Ok(ValueView::Number(Number::Integer(i))),
        YamlValueView::Number(YamlNumber::Float(b)) => Ok(ValueView::Number(Number::Float(b))),
        YamlValueView::Number(YamlNumber::Unsigned(_)) => Err(invalid_number()),
        YamlValueView::Bool(b) => Ok(ValueView::Boolean(b)),
        YamlValueView::Sequence(vs) => match parse_values(vs) {
            Ok(l) => Ok(ValueView::List(l)),
            Err(e) => Err(e),
        },
        _ => Err(invalid_value()),
    }
}

/// What the values of a YAML list read as; the first that cannot be read gives its error.
pub open spec fn parse_values(vs: Seq<YamlValueView>) -> Result<Seq<ValueView>, Seq<char>>
    decreases vs,
{
    if vs.len() == 0 {
        Ok(Seq::empty())
    } else {
        match parse_values(vs.drop_last()) {
            Err(e) => Err(e),
            Ok(l) => match parse_value(vs[vs.len() - 1]) {
                Ok(x) => Ok(l.push(x)),
                Err(e) => Err(e),
            },
        }
    }
}

/// What an entry of a mapping reads as: the node its key makes, whose child is the
/// nodes of a mapping, nothing, or the value.
pub open spec fn parse_entry(e: (YamlValueView, YamlValueView)) -> Result<NodeView, Seq<char>>
    decreases e,
{
    match e.0 {
        YamlValueView::String(k) => match key_node(k) {
            Err(m) => Err(m),
            Ok(node) => match e.1 {
                YamlValueView::Mapping(m) => match parse_mapping(m) {
                    Ok(ns) => Ok(node.with_nodes(ns)),
                    Err(x) => Err(x),
                },
                YamlValueView::Null => Ok(node),
                v => match parse_value(v) {
                    Ok(x) => Ok(node.with_value(x)),
                    Err(x) => Err(x),
                },
            },
        },
        _ => Err(non_string_key()),
    }
}

/// What the entries of a mapping read as, in order; the first that cannot be read gives
/// its error.
pub open spec fn parse_mapping(es: Seq<(YamlValueView, YamlValueView)>) -> Result<Seq<NodeView>, Seq<char>>
    decreases es,
{
    if es.len() == 0 {
        Ok(Seq::empty())
    } else {
        match parse_mapping(es.drop_last()) {
            Err(x) => Err(x),
            Ok(ns) => match parse_entry(es[es.len() - 1]) {
                Ok(n) => Ok(ns.push(n)),
                Err(x) => Err(x),
            },
        }
    }
}

/// Tells whether a value holds no mapping, at any depth.
pub fn value_readable(val: &YamlValue) -> (r: bool)
    ensures
        r == value_ok(val@),
    decreases val,
{
    match val {
        YamlValue::Mapping(_) => false,
        YamlValue::Sequence(vs) => {
            let ghost ys = yamls_view(vs@);
            proof {
                lemma_yamls_view(vs@);
            }
            for i in 0..vs.len()
                invariant
                    *val == YamlValue::Sequence(*vs),
                    val@ == YamlValueView::Sequence(ys),
                    ys == yamls_view(vs@),
                    ys.len() == vs@.len(),
                    forall|j: int| 0 <= j < ys.len() ==> #[trigger] ys[j] == yaml_view(vs@[j]),
                    values_ok(ys.take(i as int)),
            {
                proof {
                    vstd::std_specs::vec::axiom_vec_index_decreases(*vs, i as int);
                    assert(decreases_to!(*val => *vs));
                    assert(decreases_to!(*vs => vs@[i as int]));
                    assert(ys.take(i + 1).drop_last() =~= ys.take(i as int));
                    assert(ys.take(i + 1)[i as int] == ys[i as int]);
                }
                if !value_readable(&vs[i]) {
                    proof {
                        lemma_values_ok_prefix(ys, i + 1);
                    }
                    return false;
                }
            }
            proof {
                assert(ys.take(ys.len() as int) =~= ys);
            }
            true
        },
        _ => true,
    }
}

/// Tells whether a mapping's string keys can each be cut after their keyword, and its
/// values are mappings of the same kind, nothing, or values that hold no mapping.
pub fn mapping_readable(val: &Vec<(YamlValue, YamlValue)>) -> (r: bool)
    ensures
        r == mapping_ok(entries_view(val@)),
    decreases val@,
{
    let ghost es = entries_view(val@);
    proof {
        lemma_entries_view(val@);
    }
    for i in 0..val.len()
        invariant
            es == entries_view(val@),
            es.len() == val@.len(),
            forall|j: int| 0 <= j < es.len() ==> #[trigger] es[j] == (yaml_view(val@[j].0), yaml_view(val@[j].1)),
            mapping_ok(es.take(i as int)),
    {
        proof {
            vstd::std_specs::vec::axiom_vec_index_decreases(*val, i as int);
            assert(decreases_to!(val@ => val@[i as int]));
            assert(es.take(i + 1).drop_last() =~= es.take(i as int));
            assert(es.take(i + 1)[i as int] == es[i as int]);
        }
        let key_ok = match &val[i].0 {
            YamlValue::String(k) => {
                let lower = lowercase(k.as_str());
                key_cut_fits(k.as_str(), lower.as_str())
            },
            _ => true,
        };
        let v = &val[i].1;
        let ok = key_ok && match v {
            YamlValue::Mapping(m) => mapping_readable(m),
            YamlValue::Null => true,
            _ => value_readable(v),
        };
        proof {
            assert(es[i as int].1 == yaml_view(*v));
            assert(es[i as int].0 == yaml_view(val@[i as int].0));
            assert(ok == entry_ok(es[i as int]));
        }
        if !ok {
            proof {
                lemma_mapping_ok_prefix(es, i + 1);
            }
            return false;
        }
    }
    proof {
        assert(es.take(es.len() as int) =~= es);
    }
    true
}

/// A list whose first values do not all hold no mapping does not either.
proof fn lemma_values_ok_prefix(vs: Seq<YamlValueView>, k: int)
    requires
        0 <= k <= vs.len(),
        !values_ok(vs.take(k)),
    ensures
        !values_ok(vs),
    decreases vs.len() - k,
{
    if k < vs.len() {
        assert(vs.take(k + 1).drop_last() =~= vs.take(k));
        lemma_values_ok_prefix(vs, k + 1);
    } else {
        assert(vs.take(k) =~= vs);
    }
}

proof fn lemma_mapping_ok_prefix(es: Seq<(YamlValueView, YamlValueView)>, k: int)
    requires
        0 <= k <= es.len(),
        !mapping_ok(es.take(k)),
    ensures
        !mapping_ok(es),
    decreases es.len() - k,
{
    if k < es.len() {
        assert(es.take(k + 1).drop_last() =~= es.take(k));
        lemma_mapping_ok_prefix(es, k + 1);
    } else {
        assert(es.take(k) =~= es);
    }
}

fn parse_yaml_number(val: &YamlNumber) -> (r: Result<Number, Error>)
    ensures
        match parse_value(YamlValueView::Number(*val)) {
            Ok(ValueView::Number(n)) => r is Ok && r->Ok_0 == n,
            Ok(_) => false,
            Err(m) => r is Err && r->Err_0.message@ == m,
        },
{
    match val {
        YamlNumber::Float(b) => Ok(Number::Float(*b)),
        YamlNumber::Integer(i) => Ok(Number::Integer(*i)),
        YamlNumber::Unsigned(_) => Err(Error::new("Invalid number: out of the range of a 64-bit integer".to_owned())),
    }
}

fn parse_yaml_sequence(val: &Vec<YamlValue>) -> (r: Result<Vec<Value>, Error>)
    requires
        values_ok(yamls_view(val@)),
    ensures
        match parse_values(yamls_view(val@)) {
            Ok(l) => r is Ok && values_view(r->Ok_0@) == l,
            Err(m) => r is Err && r->Err_0.message@ == m,
        },
    decreases val@,
{
    let ghost vs = yamls_view(val@);
    proof {
        lemma_yamls_view(val@);
    }
    let mut result: Vec<Value> = Vec::new();
    for i in 0..val.len()
        invariant
            vs == yamls_view(val@),
            vs.len() == val@.len(),
            forall|j: int| 0 <= j < vs.len() ==> #[trigger] vs[j] == yaml_view(val@[j]),
            values_ok(vs),
            parse_values(vs.take(i as int)) == Ok::<Seq<ValueView>, Seq<char>>(values_view(result@)),
    {
        proof {
            vstd::std_specs::vec::axiom_vec_index_decreases(*val, i as int);
            assert(decreases_to!(val@ => val@[i as int]));
            assert(vs.take(i + 1).drop_last() =~= vs.take(i as int));
            assert(vs.take(i + 1)[i as int] == vs[i as int]);
            lemma_values_ok_at(vs, i as int);
        }
        let parsed = parse_yaml_value(&val[i]);
        let value = match parsed {
            Ok(value) => value,
            Err(e) => {
                proof {
                    lemma_parse_values_stops(vs, i + 1);
                }
                return Err(e);
            },
        };
        proof {
            lemma_values_view_push(result@, value);
        }
        result.push(value);
    }
    proof {
        assert(vs.take(vs.len() as int) =~= vs);
    }
    Ok(result)
}

proof fn lemma_values_view_push(s: Seq<Value>, v: Value)
    ensures
        values_view(s.push(v)) == values_view(s).push(v@),
{
    assert(s.push(v).drop_last() =~= s);
}

proof fn lemma_values_ok_at(vs: Seq<YamlValueView>, i: int)
    requires
        values_ok(vs),
        0 <= i < vs.len(),
    ensures
        value_ok(vs[i]),
    decreases vs.len(),
{
    if i < vs.len() - 1 {
        lemma_values_ok_at(vs.drop_last(), i);
        assert(vs.drop_last()[i] == vs[i]);
    }
}

proof fn lemma_mapping_ok_at(es: Seq<(YamlValueView, YamlValueView)>, i: int)
    requires
        mapping_ok(es),
        0 <= i < es.len(),
    ensures
        entry_ok(es[i]),
    decreases es.len(),
{
    if i < es.len() - 1 {
        lemma_mapping_ok_at(es.drop_last(), i);
        assert(es.drop_last()[i] == es[i]);
    }
}

fn parse_yaml_value(val: &YamlValue) -> (r: Result<Value, Error>)
    requires
        value_ok(val@),
    ensures
        match parse_value(val@) {
            Ok(v) => r is Ok && r->Ok_0@ == v,
            Err(m) => r is Err && r->Err_0.message@ == m,
        },
    decreases val,
{
    match val {
        YamlValue::String(s) => Ok(Value::String(s.clone())),
        YamlValue::Number(n) => {
            let parsed = parse_yaml_number(n)?;
            Ok(Value::Number(parsed))
        },
        YamlValue::Bool(b) => Ok(Value::Boolean(*b)),
        YamlValue::Sequence(vs) => {
            let parsed = parse_yaml_sequence(vs)?;
            Ok(Value::List(parsed))
        },
        _ => Err(Error::new("Invalid value: not a string, number, boolean or list".to_owned())),
    }
}

/// Reads a mapping into nodes where it can be read (see `mapping_readable`), and gives
/// `None` for a mapping that cannot.
pub fn try_parse_mapping_to_nodes(val: &Vec<(YamlValue, YamlValue)>) -> (r: Option<Result<Vec<Node>, Error>>)
    ensures
        r is None <==> !mapping_ok(entries_view(val@)),
        r matches Some(x) ==> match parse_mapping(entries_view(val@)) {
            Ok(ns) => x is Ok && nodes_view(x->Ok_0@) == ns,
            Err(m) => x is Err && x->Err_0.message@ == m,
        },
{
    if mapping_readable(val) {
        Some(parse_mapping_to_nodes(val))
    } else {
        None
    }
}

pub fn parse_mapping_to_nodes(val: &Vec<(YamlValue, YamlValue)>) -> (r: Result<Vec<Node>, Error>)
    requires
        mapping_ok(entries_view(val@)),
    ensures
        match parse_mapping(entries_view(val@)) {
            Ok(ns) => r is Ok && nodes_view(r->Ok_0@) == ns,
            Err(m) => r is Err && r->Err_0.message@ == m,
        },
    decreases val@,
{
    let ghost es = entries_view(val@);
    proof {
        lemma_entries_view(val@);
    }
    let mut nodes: Vec<Node> = Vec::new();
    for i in 0..val.len()
        invariant
            es == entries_view(val@),
            es.len() == val@.len(),
            forall|j: int| 0 <= j < es.len() ==> #[trigger] es[j] == (yaml_view(val@[j].0), yaml_view(val@[j].1)),
            mapping_ok(es),
            parse_mapping(es.take(i as int)) == Ok::<Seq<NodeView>, Seq<char>>(nodes_view(nodes@)),
    {
        let (k, v) = &val[i];
        proof {
            vstd::std_specs::vec::axiom_vec_index_decreases(*val, i as int);
            assert(decreases_to!(val@ => val@[i as int]));
            assert(es.take(i + 1).drop_last() =~= es.take(i as int));
            assert(es.take(i + 1)[i as int] == es[i as int]);
            lemma_mapping_ok_at(es, i as int);
        }
        let ghost e = es[i as int];
        let key = match k {
            YamlValue::String(key) => key,
            _ => {
                proof {
                    assert(parse_entry(e) == Err::<NodeView, Seq<char>>(non_string_key()));
                    lemma_parse_mapping_stops(es, i + 1);
                }
                return Err(Error::new("Invalid key: not a string".to_owned()));
            },
        };
        let mut node = match create_node_from_mapping_key(key.as_str()) {
            Ok(node) => node,
            Err(x) => {
                proof {
                    lemma_parse_mapping_stops(es, i + 1);
                }
                return Err(x);
            },
        };
        let ghost key_view = node@;
        match v {
            YamlValue::Mapping(child_mapping) => {
                let child_nodes = match parse_mapping_to_nodes(child_mapping) {
                    Ok(ns) => ns,
                    Err(x) => {
                        proof {
                            lemma_parse_mapping_stops(es, i + 1);
                        }
                        return Err(x);
                    },
                };
                node.child = Some(NodeChild::Nodes(child_nodes));
                assert(node@ == key_view.with_nodes(nodes_view(child_nodes@)));
            },
            YamlValue::Null => {
                node.child = None;
            },
            _ => {
                let value = match parse_yaml_value(v) {
                    Ok(value) => value,
                    Err(x) => {
                        proof {
                            lemma_parse_mapping_stops(es, i + 1);
                        }
                        return Err(x);
                    },
                };
                node.child = Some(NodeChild::Value(value));
                assert(node@ == key_view.with_value(value@));
            },
        }
        assert(parse_entry(e) == Ok::<NodeView, Seq<char>>(node@));
        proof {
            lemma_nodes_view_push(nodes@, node);
        }
        nodes.push(node);
    }
    proof {
        assert(es.take(es.len() as int) =~= es);
    }
    Ok(nodes)
}

/// Once an entry cannot be read, the mapping gives its error.
proof fn lemma_parse_mapping_stops(es: Seq<(YamlValueView, YamlValueView)>, k: int)
    requires
        0 <= k <= es.len(),
        parse_mapping(es.take(k)) is Err,
    ensures
        parse_mapping(es) == parse_mapping(es.take(k)),
    decreases es.len() - k,
{
    if k < es.len() {
        assert(es.take(k + 1).drop_last() =~= es.take(k));
        lemma_parse_mapping_stops(es, k + 1);
    } else {
        assert(es.take(k) =~= es);
    }
}

/// Once a value cannot be read, the list gives its error.
proof fn lemma_parse_values_stops(vs: Seq<YamlValueView>, k: int)
    requires
        0 <= k <= vs.len(),
        parse_values(vs.take(k)) is Err,
    ensures
        parse_values(vs) == parse_values(vs.take(k)),
    decreases vs.len() - k,
{
    if k < vs.len() {
        assert(vs.take(k + 1).drop_last() =~= vs.take(k));
        lemma_parse_values_stops(vs, k + 1);
    } else {
        assert(vs.take(k) =~= vs);
    }
}

/// The YAML value a node value is written as.
pub open spec fn render_value(v: ValueView) -> YamlValueView
    decreases v,
{
    match v {
        ValueView::Boolean(b) => YamlValueView::Bool(b),
        ValueView::String(s) => YamlValueView::String(s),
        ValueView::Number(Number::Integer(i)) => YamlValueView::Number(YamlNumber::Integer(i)),
        ValueView::Number(Number::Float(b)) => YamlValueView::Number(YamlNumber::Float(b)),
        ValueView::List(vs) => YamlValueView::Sequence(render_values(vs)),
    }
}

pub open spec fn render_values(vs: Seq<ValueView>) -> Seq<YamlValueView>
    decreases vs,
{
    if vs.len() == 0 {
        Seq::empty()
    } else {
        render_values(vs.drop_last()).push(render_value(vs[vs.len() - 1]))
    }
}

/// The position of the first entry with the given key.
pub open spec fn key_index(es: Seq<(YamlValueView, YamlValueView)>, k: YamlValueView) -> Option<int>
    decreases es.len(),
{
    if es.len() == 0 {
        None
    } else if es[0].0 == k {
        Some(0)
    } else {
        match key_index(es.subrange(1, es.len() as int), k) {
            Some(i) => Some(i + 1),
            None => None,
        }
    }
}

/// A mapping with an entry set: the entry with that key gets the value in place, or the
/// entry is added at the end.
pub open spec fn insert_entry(es: Seq<(YamlValueView, YamlValueView)>, k: YamlValueView, v: YamlValueView) -> Seq<(YamlValueView, YamlValueView)> {
    match key_index(es, k) {
        Some(i) => es.update(i, (k, v)),
        None => es.push((k, v)),
    }
}

/// The value a node is written as: its nodes as a mapping, its value, or nothing.
pub open spec fn render_node_value(n: NodeView) -> YamlValueView
    decreases n,
{
    match n.child {
        None => YamlValueView::Null,
        Some(NodeChildView::Value(v)) => render_value(v),
        Some(NodeChildView::Nodes(ns)) => YamlValueView::Mapping(render_entries(ns)),
    }
}

/// The entries nodes are written as, one after the other.
pub open spec fn render_entries(ns: Seq<NodeView>) -> Seq<(YamlValueView, YamlValueView)>
    decreases ns,
{
    if ns.len() == 0 {
        Seq::empty()
    } else {
        insert_entry(
            render_entries(ns.drop_last()),
            YamlValueView::String(ns[ns.len() - 1].display()),
            render_node_value(ns[ns.len() - 1]),
        )
    }
}

/// The key a node is written under: its type, then a space and its name if it has one.
fn render_node_to_mapping_key(node: &Node) -> (r: String)
    ensures
        r@ == node@.display(),
{
    node.display_string()
}

fn render_value_to_yaml_value(value: &Value) -> (r: YamlValue)
    ensures
        r@ == render_value(value@),
    decreases value,
{
    match value {
        Value::Boolean(b) => YamlValue::Bool(*b),
        Value::String(s) => YamlValue::String(s.clone()),
        Value::Number(Number::Integer(i)) => YamlValue::Number(YamlNumber::Integer(*i)),
        Value::Number(Number::Float(b)) => YamlValue::Number(YamlNumber::Float(*b)),
        Value::List(vs) => YamlValue::Sequence(render_list_to_yaml_sequence(vs)),
    }
}

fn render_list_to_yaml_sequence(list: &Vec<Value>) -> (r: Vec<YamlValue>)
    ensures
        yamls_view(r@) == render_values(values_view(list@)),
    decreases list@,
{
    let ghost vs = values_view(list@);
    proof {
        lemma_values_view(list@);
    }
    let mut sequence: Vec<YamlValue> = Vec::new();
    for i in 0..list.len()
        invariant
            vs == values_view(list@),
            vs.len() == list@.len(),
            forall|j: int| 0 <= j < vs.len() ==> #[trigger] vs[j] == list@[j]@,
            yamls_view(sequence@) == render_values(vs.take(i as int)),
    {
        proof {
            vstd::std_specs::vec::axiom_vec_index_decreases(*list, i as int);
            assert(decreases_to!(list@ => list@[i as int]));
            assert(vs.take(i + 1).drop_last() =~= vs.take(i as int));
            assert(vs.take(i + 1)[i as int] == vs[i as int]);
        }
        let val = render_value_to_yaml_value(&list[i]);
        proof {
            assert(sequence@.push(val).drop_last() =~= sequence@);
        }
        sequence.push(val);
    }
    proof {
        assert(vs.take(vs.len() as int) =~= vs);
    }
    sequence
}

fn render_node_to_mapping_value(node: &Node) -> (r: YamlValue)
    ensures
        r@ == render_node_value(node@),
    decreases node,
{
    match &node.child {
        Some(NodeChild::Value(value)) => render_value_to_yaml_value(value),
        Some(NodeChild::Nodes(nodes)) => render_nodes_to_mapping(nodes),
        None => YamlValue::Null,
    }
}

/// Sets an entry of a mapping whose keys are strings.
fn insert_entry_exec(entries: &mut Vec<(YamlValue, YamlValue)>, key: String, value: YamlValue)
    ensures
        entries_view(final(entries)@) == insert_entry(entries_view(old(entries)@), YamlValueView::String(key@), value@),
{
    let ghost es = entries_view(entries@);
    let ghost k = YamlValueView::String(key@);
    proof {
        lemma_entries_view(entries@);
        assert(es.subrange(0, es.len() as int) =~= es);
    }
    let mut i: usize = 0;
    while i < entries.len()
        invariant
            es == entries_view(entries@),
            es == entries_view(old(entries)@),
            k == YamlValueView::String(key@),
            es.len() == entries@.len(),
            forall|j: int| 0 <= j < es.len() ==> #[trigger] es[j] == (yaml_view(entries@[j].0), yaml_view(entries@[j].1)),
            i <= es.len(),
            key_index(es, k) == match key_index(es.subrange(i as int, es.len() as int), k) {
                Some(x) => Some(x + i),
                None => None::<int>,
            },
        decreases es.len() - i,
    {
        let ghost rest = es.subrange(i as int, es.len() as int);
        proof {
            assert(rest[0] == es[i as int]);
            assert(rest.subrange(1, rest.len() as int) =~= es.subrange(i + 1, es.len() as int));
        }
        let same = match &entries[i].0 {
            YamlValue::String(s) => {
                let b = crate::text::str_eq(s.as_str(), key.as_str());
                proof {
                    assert(es[i as int] == (yaml_view(entries@[i as int].0), yaml_view(entries@[i as int].1)));
                    assert(entries@[i as int].0 == YamlValue::String(*s));
                    assert(es[i as int].0 == YamlValueView::String(s@));
                }
                b
            },
            _ => {
                proof {
                    assert(es[i as int] == (yaml_view(entries@[i as int].0), yaml_view(entries@[i as int].1)));
                    assert(!(es[i as int].0 is String));
                }
                false
            },
        };
        proof {
            if same {
                assert(es[i as int].0 == k);
            } else {
                assert(es[i as int].0 != k);
            }
        }
        if same {
            let ghost v = value@;
            let ghost before = entries@;
            let entry = (YamlValue::String(key), value);
            let ghost ev = entry;
            assert(yaml_view(ev.0) == k);
            assert(yaml_view(ev.1) == v);
            entries.set(i, entry);
            proof {
                assert(entries@ == before.update(i as int, ev));
                assert(key_index(es, k) == Some(i as int));
                lemma_entries_view(entries@);
                assert forall|j: int| 0 <= j < entries@.len() implies #[trigger] entries_view(entries@)[j] == es.update(i as int, (k, v))[j] by {
                    if j == i {
                        assert(entries@[j] == ev);
                    } else {
                        assert(entries@[j] == before[j]);
                    }
                }
                assert(entries_view(entries@) =~= es.update(i as int, (k, v)));
            }
            return;
        }
        i = i + 1;
    }
    proof {
        assert(es.subrange(es.len() as int, es.len() as int).len() == 0);
        assert(key_index(es, k) is None);
    }
    let ghost before = entries@;
    let entry = (YamlValue::String(key), value);
    let ghost ev = entry;
    entries.push(entry);
    proof {
        assert(entries@.drop_last() =~= before);
        assert(entries@.last() == ev);
        assert(yaml_view(ev.0) == k);
    }
}

pub fn render_nodes_to_mapping(nodes: &Vec<Node>) -> (r: YamlValue)
    ensures
        r@ == YamlValueView::Mapping(render_entries(nodes_view(nodes@))),
    decreases nodes@,
{
    let ghost ns = nodes_view(nodes@);
    proof {
        lemma_nodes_view(nodes@);
    }
    let mut map: Vec<(YamlValue, YamlValue)> = Vec::new();
    for i in 0..nodes.len()
        invariant
            ns == nodes_view(nodes@),
            ns.len() == nodes@.len(),
            forall|j: int| 0 <= j < ns.len() ==> #[trigger] ns[j] == nodes@[j]@,
            entries_view(map@) == render_entries(ns.take(i as int)),
    {
        proof {
            vstd::std_specs::vec::axiom_vec_index_decreases(*nodes, i as int);
            assert(decreases_to!(nodes@ => nodes@[i as int]));
            assert(ns.take(i + 1).drop_last() =~= ns.take(i as int));
            assert(ns.take(i + 1)[i as int] == ns[i as int]);
        }
        let key = render_node_to_mapping_key(&nodes[i]);
        let value = render_node_to_mapping_value(&nodes[i]);
        insert_entry_exec(&mut map, key, value);
    }
    proof {
        assert(ns.take(ns.len() as int) =~= ns);
    }
    YamlValue::Mapping(map)
}

/// Writing a node value and reading it back gives the same value, and what is written
/// holds no mapping.
pub proof fn lemma_value_roundtrip(v: ValueView)
    ensures
        parse_value(render_value(v)) == Ok::<ValueView, Seq<char>>(v),
        value_ok(render_value(v)),
    decreases v,
{
    match v {
        ValueView::List(vs) => {
            lemma_values_roundtrip(vs);
        },
        ValueView::Number(Number::Integer(_)) => {},
        ValueView::Number(Number::Float(_)) => {},
        _ => {},
    }
}

pub proof fn lemma_values_roundtrip(vs: Seq<ValueView>)
    ensures
        parse_values(render_values(vs)) == Ok::<Seq<ValueView>, Seq<char>>(vs),
        values_ok(render_values(vs)),
    decreases vs,
{
    if vs.len() > 0 {
        lemma_values_roundtrip(vs.drop_last());
        lemma_value_roundtrip(vs[vs.len() - 1]);
        let rs = render_values(vs);
        let rd = render_values(vs.drop_last());
        assert(rs.drop_last() =~= rd);
        assert(vs.drop_last().push(vs[vs.len() - 1]) =~= vs);
    } else {
        assert(vs =~= Seq::<ValueView>::empty());
    }
}

/// Some node of the list is written under the given key.
pub open spec fn has_key(ns: Seq<NodeView>, key: Seq<char>) -> bool {
    exists|i: int| 0 <= i < ns.len() && (#[trigger] ns[i]).display() == key
}

/// Nodes that can be written as a mapping and read back: the key of each reads back as
/// its type and name, no two of them share a key, and the nodes of each can be written
/// and read back too.
pub open spec fn nodes_read_back(ns: Seq<NodeView>) -> bool
    decreases ns,
{
    if ns.len() == 0 {
        true
    } else {
        &&& nodes_read_back(ns.drop_last())
        &&& node_read_back(ns[ns.len() - 1])
        &&& !has_key(ns.drop_last(), ns[ns.len() - 1].display())
    }
}

pub open spec fn node_read_back(n: NodeView) -> bool
    decreases n,
{
    &&& key_node(n.display()) == Ok::<NodeView, Seq<char>>(NodeView { child: None, ..n })
    &&& match n.child {
        Some(NodeChildView::Nodes(cs)) => nodes_read_back(cs),
        _ => true,
    }
}

/// The entries of a mapping with keys other than the given one have no entry with it.
proof fn lemma_key_index_none(es: Seq<(YamlValueView, YamlValueView)>, k: YamlValueView)
    requires
        forall|i: int| 0 <= i < es.len() ==> (#[trigger] es[i]).0 != k,
    ensures
        key_index(es, k) is None,
    decreases es.len(),
{
    if es.len() > 0 {
        let rest = es.subrange(1, es.len() as int);
        assert forall|i: int| 0 <= i < rest.len() implies (#[trigger] rest[i]).0 != k by {
            assert(rest[i] == es[i + 1]);
        }
        lemma_key_index_none(rest, k);
        assert(es[0].0 != k);
    }
}

/// Nodes with keys of their own are written as one entry each, in order.
proof fn lemma_render_entries_in_order(ns: Seq<NodeView>)
    requires
        nodes_read_back(ns),
    ensures
        render_entries(ns).len() == ns.len(),
        forall|i: int| 0 <= i < ns.len() ==> (#[trigger] render_entries(ns)[i]) == (
            YamlValueView::String(ns[i].display()),
            render_node_value(ns[i]),
        ),
    decreases ns.len(),
{
    if ns.len() > 0 {
        let rest = ns.drop_last();
        let last = ns[ns.len() - 1];
        lemma_render_entries_in_order(rest);
        let es = render_entries(rest);
        let k = YamlValueView::String(last.display());
        assert forall|i: int| 0 <= i < es.len() implies (#[trigger] es[i]).0 != k by {
            assert(es[i] == (YamlValueView::String(rest[i].display()), render_node_value(rest[i])));
            if rest[i].display() == last.display() {
                assert(has_key(rest, last.display()));
            }
        }
        lemma_key_index_none(es, k);
        assert forall|i: int| 0 <= i < ns.len() implies (#[trigger] render_entries(ns)[i]) == (
            YamlValueView::String(ns[i].display()),
            render_node_value(ns[i]),
        ) by {
            if i < ns.len() - 1 {
                assert(ns[i] == rest[i]);
            }
        }
    }
}

/// Writing nodes as a mapping and reading the mapping back gives the same nodes,
/// provided that the key of each node reads back as its type and name and that no two
/// nodes of a mapping share a key.
pub proof fn lemma_yaml_roundtrip(ns: Seq<NodeView>)
    requires
        nodes_read_back(ns),
    ensures
        mapping_ok(render_entries(ns)),
        parse_mapping(render_entries(ns)) == Ok::<Seq<NodeView>, Seq<char>>(ns),
    decreases ns,
{
    if ns.len() > 0 {
        let rest = ns.drop_last();
        let last = ns[ns.len() - 1];
        lemma_yaml_roundtrip(rest);
        lemma_render_entries_in_order(ns);
        lemma_render_entries_in_order(rest);
        let es = render_entries(ns);
        assert(es.drop_last() =~= render_entries(rest));
        let e = es[es.len() - 1];
        assert(e == (YamlValueView::String(last.display()), render_node_value(last)));
        let bare = NodeView { child: None, ..last };
        assert(node_read_back(last));
        assert(key_node(last.display()) == Ok::<NodeView, Seq<char>>(bare));
        match last.child {
            None => {
                assert(bare == last);
            },
            Some(NodeChildView::Value(v)) => {
                lemma_value_roundtrip(v);
                assert(bare.with_value(v) == last);
                assert(render_node_value(last) == render_value(v));
                assert(!(render_value(v) is Mapping) && !(render_value(v) is Null));
            },
            Some(NodeChildView::Nodes(cs)) => {
                assert(decreases_to!(ns => last));
                assert(nodes_read_back(cs));
                lemma_yaml_roundtrip(cs);
                assert(bare.with_nodes(cs) == last);
            },
        }
        assert(parse_entry(e) == Ok::<NodeView, Seq<char>>(last));
        assert(entry_ok(e));
        assert(rest.push(last) =~= ns);
    } else {
        assert(ns =~= Seq::<NodeView>::empty());
    }
}

} // verus!
