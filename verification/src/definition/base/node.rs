//! The typed node tree that definition files are read into and written from.
use vstd::prelude::*;

verus! {

/// A node of a definition tree: a keyword type, an optional name and an optional child,
/// which is either a scalar value or a list of child nodes.
#[derive(PartialEq, Debug)]
pub struct Node {
    pub typ: &'static str,
    pub name: Option<String>,
    pub child: Option<NodeChild>,
}

#[derive(PartialEq, Debug)]
pub enum NodeChild {
    Value(Value),
    Nodes(Vec<Node>),
}

#[derive(PartialEq, Debug)]
pub enum Value {
    Boolean(bool),
    String(String),
    Number(Number),
    List(Vec<Value>),
}

/// A number of a definition tree. A float is held as its IEEE-754 bit pattern.
#[derive(PartialEq, Eq, Debug, Clone, Copy)]
pub enum Number {
    Integer(i64),
    Float(u64),
}

/// The mathematical model of a [`Value`].
pub ghost enum ValueView {
    Boolean(bool),
    String(Seq<char>),
    Number(Number),
    List(Seq<ValueView>),
}

/// The mathematical model of a [`Node`].
pub ghost struct NodeView {
    pub typ: Seq<char>,
    pub name: Option<Seq<char>>,
    pub child: Option<NodeChildView>,
}

/// The mathematical model of a [`NodeChild`].
pub ghost enum NodeChildView {
    Value(ValueView),
    Nodes(Seq<NodeView>),
}

pub open spec fn value_view(v: Value) -> ValueView
    decreases v,
{
    match v {
        Value::Boolean(b) => ValueView::Boolean(b),
        Value::String(s) => ValueView::String(s@),
        Value::Number(n) => ValueView::Number(n),
        Value::List(l) => ValueView::List(values_view(l@)),
    }
}

pub open spec fn values_view(s: Seq<Value>) -> Seq<ValueView>
    decreases s,
{
    if s.len() == 0 {
        Seq::empty()
    } else {
        values_view(s.drop_last()).push(value_view(s.last()))
    }
}

pub open spec fn node_view(n: Node) -> NodeView
    decreases n,
{
    NodeView {
        typ: n.typ@,
        name: n.name.deep_view(),
        child: match n.child {
            Some(c) => Some(child_view(c)),
            None => None,
        },
    }
}

pub open spec fn child_view(c: NodeChild) -> NodeChildView
    decreases c,
{
    match c {
        NodeChild::Value(v) => NodeChildView::Value(value_view(v)),
        NodeChild::Nodes(ns) => NodeChildView::Nodes(nodes_view(ns@)),
    }
}

pub open spec fn nodes_view(s: Seq<Node>) -> Seq<NodeView>
    decreases s,
{
    if s.len() == 0 {
        Seq::empty()
    } else {
        nodes_view(s.drop_last()).push(node_view(s.last()))
    }
}

impl View for Value {
    type V = ValueView;

    open spec fn view(&self) -> ValueView {
        value_view(*self)
    }
}

impl View for Node {
    type V = NodeView;

    open spec fn view(&self) -> NodeView {
        node_view(*self)
    }
}

impl View for NodeChild {
    type V = NodeChildView;

    open spec fn view(&self) -> NodeChildView {
        child_view(*self)
    }
}

pub proof fn lemma_values_view(s: Seq<Value>)
    ensures
        values_view(s).len() == s.len(),
        forall|i: int| 0 <= i < s.len() ==> #[trigger] values_view(s)[i] == value_view(s[i]),
    decreases s.len(),
{
    if s.len() > 0 {
        lemma_values_view(s.drop_last());
        assert forall|i: int| 0 <= i < s.len() implies #[trigger] values_view(s)[i] == value_view(s[i]) by {
            if i < s.len() - 1 {
                assert(s.drop_last()[i] == s[i]);
            }
        }
    }
}

pub proof fn lemma_nodes_view(s: Seq<Node>)
    ensures
        nodes_view(s).len() == s.len(),
        forall|i: int| 0 <= i < s.len() ==> #[trigger] nodes_view(s)[i] == node_view(s[i]),
    decreases s.len(),
{
    if s.len() > 0 {
        lemma_nodes_view(s.drop_last());
        assert forall|i: int| 0 <= i < s.len() implies #[trigger] nodes_view(s)[i] == node_view(s[i]) by {
            if i < s.len() - 1 {
                assert(s.drop_last()[i] == s[i]);
            }
        }
    }
}

pub proof fn lemma_nodes_view_push(s: Seq<Node>, n: Node)
    ensures
        nodes_view(s.push(n)) == nodes_view(s).push(node_view(n)),
{
    assert(s.push(n).drop_last() =~= s);
}

/// The strings of a list of values, if every value is a string.
pub open spec fn strings_of(vs: Seq<ValueView>) -> Option<Seq<Seq<char>>>
    decreases vs.len(),
{
    if vs.len() == 0 {
        Some(Seq::empty())
    } else {
        match (strings_of(vs.drop_last()), vs.last()) {
            (Some(ss), ValueView::String(s)) => Some(ss.push(s)),
            _ => None,
        }
    }
}

/// The value that a list of strings is written as: one string alone, or a list of strings.
pub open spec fn varargs_value(ss: Seq<Seq<char>>) -> ValueView {
    if ss.len() == 1 {
        ValueView::String(ss[0])
    } else {
        ValueView::List(ss.map_values(|s: Seq<char>| ValueView::String(s)))
    }
}

impl ValueView {
    pub open spec fn boolean(self) -> Option<bool> {
        match self {
            ValueView::Boolean(b) => Some(b),
            _ => None,
        }
    }

    pub open spec fn integer(self) -> Option<i64> {
        match self {
            ValueView::Number(Number::Integer(i)) => Some(i),
            _ => None,
        }
    }

    pub open spec fn string(self) -> Option<Seq<char>> {
        match self {
            ValueView::String(s) => Some(s),
            _ => None,
        }
    }

    /// A string alone, or a list whose items are all strings, read as a list of strings.
    pub open spec fn varargs(self) -> Option<Seq<Seq<char>>> {
        match self {
            ValueView::List(vs) => strings_of(vs),
            ValueView::String(s) => Some(seq![s]),
            _ => None,
        }
    }
}

impl NodeView {
    pub open spec fn value(self) -> Option<ValueView> {
        match self.child {
            Some(NodeChildView::Value(v)) => Some(v),
            _ => None,
        }
    }

    pub open spec fn nodes(self) -> Option<Seq<NodeView>> {
        match self.child {
            Some(NodeChildView::Nodes(ns)) => Some(ns),
            _ => None,
        }
    }

    pub open spec fn boolean(self) -> Option<bool> {
        match self.value() {
            Some(v) => v.boolean(),
            None => None,
        }
    }

    pub open spec fn integer(self) -> Option<i64> {
        match self.value() {
            Some(v) => v.integer(),
            None => None,
        }
    }

    pub open spec fn string(self) -> Option<Seq<char>> {
        match self.value() {
            Some(v) => v.string(),
            None => None,
        }
    }

    pub open spec fn varargs(self) -> Option<Seq<Seq<char>>> {
        match self.value() {
            Some(v) => v.varargs(),
            None => None,
        }
    }

    /// The type, followed by a space and the name where there is one.
    pub open spec fn display(self) -> Seq<char> {
        match self.name {
            Some(name) => self.typ + " "@ + name,
            None => self.typ,
        }
    }

    pub open spec fn with_name(self, name: Seq<char>) -> NodeView {
        NodeView { name: Some(name), ..self }
    }

    pub open spec fn with_nodes(self, nodes: Seq<NodeView>) -> NodeView {
        NodeView { child: Some(NodeChildView::Nodes(nodes)), ..self }
    }

    pub open spec fn with_value(self, v: ValueView) -> NodeView {
        NodeView { child: Some(NodeChildView::Value(v)), ..self }
    }
}

/// A node of the given type, without name and child.
pub open spec fn new_node(typ: Seq<char>) -> NodeView {
    NodeView { typ, name: None, child: None }
}

impl Default for Node {
    fn default() -> (r: Self)
        ensures
            r@ == new_node(""@),
    {
        Node { typ: "", name: None, child: None }
    }
}

impl Node {
    pub fn new(typ: &'static str) -> (r: Node)
        ensures
            r@ == new_node(typ@),
    {
        Node { typ, name: None, child: None }
    }

    pub fn get_name(&self) -> (r: Option<String>)
        ensures
            r.deep_view() == self@.name,
    {
        self.name.clone()
    }

    pub fn get_nodes(&self) -> (r: Option<&Vec<Node>>)
        ensures
            match r {
                Some(ns) => self@.nodes() == Some(nodes_view(ns@)),
                None => self@.nodes() is None,
            },
    {
        match &self.child {
            Some(c) => c.to_nodes(),
            None => None,
        }
    }

    pub fn get_boolean_value(&self) -> (r: Option<bool>)
        ensures
            r == self@.boolean(),
    {
        match &self.child {
            Some(c) => match c.to_value() {
                Some(v) => v.to_boolean(),
                None => None,
            },
            None => None,
        }
    }

    pub fn get_number_integer_value(&self) -> (r: Option<i64>)
        ensures
            r == self@.integer(),
    {
        match &self.child {
            Some(c) => match c.to_value() {
                Some(v) => v.to_number_integer(),
                None => None,
            },
            None => None,
        }
    }

    pub fn get_string_value(&self) -> (r: Option<String>)
        ensures
            r.deep_view() == self@.string(),
    {
        match &self.child {
            Some(c) => match c.to_value() {
                Some(v) => v.to_string(),
                None => None,
            },
            None => None,
        }
    }

    pub fn get_string_varargs_value(&self) -> (r: Option<Vec<String>>)
        ensures
            r.deep_view() == self@.varargs(),
    {
        match &self.child {
            Some(c) => match c.to_value() {
                Some(v) => v.to_string_varargs(),
                None => None,
            },
            None => None,
        }
    }

    pub fn with_name(self, name: String) -> (r: Self)
        ensures
            r@ == self@.with_name(name@),
    {
        Node { name: Some(name), ..self }
    }

    pub fn with_nodes(self, nodes: Vec<Node>) -> (r: Self)
        ensures
            r@ == self@.with_nodes(nodes_view(nodes@)),
    {
        Node { child: Some(NodeChild::Nodes(nodes)), ..self }
    }

    pub fn with_boolean_value(self, b: bool) -> (r: Self)
        ensures
            r@ == self@.with_value(ValueView::Boolean(b)),
    {
        Node { child: Some(NodeChild::Value(Value::from_boolean(b))), ..self }
    }

    pub fn with_number_integer_value(self, i: i64) -> (r: Self)
        ensures
            r@ == self@.with_value(ValueView::Number(Number::Integer(i))),
    {
        Node { child: Some(NodeChild::Value(Value::from_number_integer(i))), ..self }
    }

    pub fn with_string_value(self, s: String) -> (r: Self)
        ensures
            r@ == self@.with_value(ValueView::String(s@)),
    {
        Node { child: Some(NodeChild::Value(Value::from_string(s))), ..self }
    }

    pub fn with_string_varargs_value(self, strings: Vec<String>) -> (r: Self)
        ensures
            r@ == self@.with_value(varargs_value(strings.deep_view())),
    {
        Node { child: Some(NodeChild::Value(Value::from_string_varargs(strings))), ..self }
    }

    /// The type, followed by a space and the name where there is one.
    pub fn display_string(&self) -> (r: String)
        ensures
            r@ == self@.display(),
    {
        let mut s = String::new();
        s.append(self.typ);
        if let Some(name) = &self.name {
            s.append(" ");
            s.append(name.as_str());
        }
        s
    }
}

impl NodeChild {
    pub fn to_nodes(&self) -> (r: Option<&Vec<Node>>)
        ensures
            match r {
                Some(ns) => self@ == NodeChildView::Nodes(nodes_view(ns@)),
                None => !(self@ is Nodes),
            },
    {
        match self {
            NodeChild::Nodes(nodes) => Some(nodes),
            _ => None,
        }
    }

    pub fn to_value(&self) -> (r: Option<&Value>)
        ensures
            match r {
                Some(v) => self@ == NodeChildView::Value(v@),
                None => !(self@ is Value),
            },
    {
        match self {
            NodeChild::Value(value) => Some(value),
            _ => None,
        }
    }
}

impl Value {
    pub fn to_boolean(&self) -> (r: Option<bool>)
        ensures
            r == self@.boolean(),
    {
        match self {
            Value::Boolean(b) => Some(*b),
            _ => None,
        }
    }

    pub fn to_number_integer(&self) -> (r: Option<i64>)
        ensures
            r == self@.integer(),
    {
        match self {
            Value::Number(n) => n.to_integer(),
            _ => None,
        }
    }

    pub fn to_string(&self) -> (r: Option<String>)
        ensures
            r.deep_view() == self@.string(),
    {
        match self {
            Value::String(s) => Some(s.clone()),
            _ => None,
        }
    }

    /// A string alone, or a list whose items are all strings, read as a list of strings.
    pub fn to_string_varargs(&self) -> (r: Option<Vec<String>>)
        ensures
            r.deep_view() == self@.varargs(),
    {
        match self {
            Value::List(values) => {
                let mut strings: Vec<String> = Vec::new();
                let ghost vs = values_view(values@);
                proof {
                    lemma_values_view(values@);
                }
                for i in 0..values.len()
                    invariant
                        self@ == ValueView::List(vs),
                        vs == values_view(values@),
                        vs.len() == values@.len(),
                        forall|j: int| 0 <= j < vs.len() ==> #[trigger] vs[j] == value_view(values@[j]),
                        strings_of(vs.take(i as int)) == Some(strings.deep_view()),
                {
                    assert(vs.take(i + 1).drop_last() =~= vs.take(i as int));
                    match values[i].to_string() {
                        Some(s) => {
                            strings.push(s);
                            assert(strings.deep_view() =~= strings_of(vs.take(i as int)).unwrap().push(vs[i as int]->String_0));
                        },
                        None => {
                            assert(vs.take(i + 1).last() == vs[i as int]);
                            assert(strings_of(vs.take(i + 1)) is None);
                            proof {
                                lemma_strings_of_prefix(vs, i + 1);
                            }
                            return None;
                        },
                    }
                }
                assert(vs.take(values@.len() as int) =~= vs);
                Some(strings)
            },
            Value::String(s) => {
                let mut strings: Vec<String> = Vec::new();
                strings.push(s.clone());
                assert(strings.deep_view() =~= seq![s@]);
                Some(strings)
            },
            _ => None,
        }
    }

    pub fn from_boolean(b: bool) -> (r: Value)
        ensures
            r@ == ValueView::Boolean(b),
    {
        Value::Boolean(b)
    }

    pub fn from_number_integer(i: i64) -> (r: Value)
        ensures
            r@ == ValueView::Number(Number::Integer(i)),
    {
        Value::Number(Number::from_integer(i))
    }

    pub fn from_string(s: String) -> (r: Value)
        ensures
            r@ == ValueView::String(s@),
    {
        Value::String(s)
    }

    /// One string is written as itself, any other number of strings as a list.
    pub fn from_string_varargs(strings: Vec<String>) -> (r: Value)
        ensures
            r@ == varargs_value(strings.deep_view()),
    {
        if strings.len() == 1 {
            return Value::from_string(strings[0].clone());
        }
        let mut values: Vec<Value> = Vec::new();
        let ghost ss = strings.deep_view();
        for i in 0..strings.len()
            invariant
                ss == strings.deep_view(),
                values_view(values@) =~= ss.take(i as int).map_values(|s: Seq<char>| ValueView::String(s)),
        {
            let ghost before = values@;
            values.push(Value::from_string(strings[i].clone()));
            assert(values@.drop_last() == before);
            assert(ss.take(i + 1).map_values(|s: Seq<char>| ValueView::String(s)) =~=
                ss.take(i as int).map_values(|s: Seq<char>| ValueView::String(s)).push(ValueView::String(ss[i as int])));
        }
        assert(ss.take(strings@.len() as int) =~= ss);
        Value::List(values)
    }
}

proof fn lemma_strings_of_prefix(vs: Seq<ValueView>, k: int)
    requires
        0 <= k <= vs.len(),
        strings_of(vs.take(k)) is None,
    ensures
        strings_of(vs) is None,
    decreases vs.len() - k,
{
    if k < vs.len() {
        assert(vs.take(k + 1).drop_last() =~= vs.take(k));
        lemma_strings_of_prefix(vs, k + 1);
    } else {
        assert(vs.take(k) =~= vs);
    }
}

impl Number {
    pub fn to_integer(&self) -> (r: Option<i64>)
        ensures
            r == match *self {
                Number::Integer(i) => Some(i),
                Number::Float(_) => None::<i64>,
            },
    {
        match self {
            Number::Integer(i) => Some(*i),
            Number::Float(_) => None,
        }
    }

    pub fn from_integer(i: i64) -> (r: Number)
        ensures
            r == Number::Integer(i),
    {
        Number::Integer(i)
    }
}

/// Reading a list of strings back from the value it is written as gives the same list.
pub proof fn lemma_varargs_roundtrip(ss: Seq<Seq<char>>)
    ensures
        varargs_value(ss).varargs() == Some(ss),
{
    if ss.len() != 1 {
        lemma_strings_of_strings(ss);
    } else {
        assert(seq![ss[0]] =~= ss);
    }
}

proof fn lemma_strings_of_strings(ss: Seq<Seq<char>>)
    ensures
        strings_of(ss.map_values(|s: Seq<char>| ValueView::String(s))) == Some(ss),
    decreases ss.len(),
{
    if ss.len() > 0 {
        let vs = ss.map_values(|s: Seq<char>| ValueView::String(s));
        assert(vs.drop_last() =~= ss.drop_last().map_values(|s: Seq<char>| ValueView::String(s)));
        lemma_strings_of_strings(ss.drop_last());
        assert(ss.drop_last().push(ss.last()) =~= ss);
    }
}

} // verus!
