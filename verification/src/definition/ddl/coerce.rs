//! Reading the name, the child nodes or the value of a node as the shape a definition expects.
use vstd::prelude::*;
use crate::definition::base::node::{Node, NodeView, nodes_view};
use super::error::{Error, ErrorView, name_required, child_nodes_required, invalid_type_attribute};

verus! {

/// What a node's name reads as.
pub open spec fn name_outcome(n: NodeView) -> Result<Seq<char>, ErrorView> {
    match n.name {
        Some(s) => Ok(s),
        None => Err(name_required(n)),
    }
}

/// What a node's value reads as, as a string.
pub open spec fn string_outcome(n: NodeView) -> Result<Seq<char>, ErrorView> {
    match n.string() {
        Some(s) => Ok(s),
        None => Err(invalid_type_attribute(n, "string"@)),
    }
}

/// What a node's value reads as, as a boolean.
pub open spec fn boolean_outcome(n: NodeView) -> Result<bool, ErrorView> {
    match n.boolean() {
        Some(b) => Ok(b),
        None => Err(invalid_type_attribute(n, "boolean"@)),
    }
}

/// What a node's value reads as, as an integer.
pub open spec fn integer_outcome(n: NodeView) -> Result<i64, ErrorView> {
    match n.integer() {
        Some(i) => Ok(i),
        None => Err(invalid_type_attribute(n, "integer"@)),
    }
}

/// What a node's value reads as, as a list of strings.
pub open spec fn varargs_outcome(n: NodeView) -> Result<Seq<Seq<char>>, ErrorView> {
    match n.varargs() {
        Some(v) => Ok(v),
        None => Err(invalid_type_attribute(n, "...string"@)),
    }
}

/// What a node's name and string value read as; a missing name is reported first.
pub open spec fn name_string_outcome(n: NodeView) -> Result<(Seq<char>, Seq<char>), ErrorView> {
    match (n.name, n.string()) {
        (None, _) => Err(name_required(n)),
        (Some(_), None) => Err(invalid_type_attribute(n, "string"@)),
        (Some(a), Some(b)) => Ok((a, b)),
    }
}

/// What a node's name and list of strings read as; a missing name is reported first.
pub open spec fn name_varargs_outcome(n: NodeView) -> Result<(Seq<char>, Seq<Seq<char>>), ErrorView> {
    match (n.name, n.varargs()) {
        (None, _) => Err(name_required(n)),
        (Some(_), None) => Err(invalid_type_attribute(n, "...string"@)),
        (Some(a), Some(b)) => Ok((a, b)),
    }
}

/// The error of an outcome, if it failed.
pub open spec fn error_of<T>(r: Result<T, ErrorView>) -> Option<ErrorView> {
    match r {
        Ok(_) => None,
        Err(e) => Some(e),
    }
}

/// The errors of the children, in order, that a definition reports for each of them.
pub open spec fn collect_errors(cs: Seq<NodeView>, f: spec_fn(NodeView) -> Option<ErrorView>) -> Seq<ErrorView>
    decreases cs.len(),
{
    if cs.len() == 0 {
        Seq::empty()
    } else {
        let before = collect_errors(cs.drop_last(), f);
        match f(cs.last()) {
            Some(e) => before.push(e),
            None => before,
        }
    }
}

/// The string value of the last child of type `t` whose value is a string.
pub open spec fn last_string(cs: Seq<NodeView>, t: Seq<char>) -> Option<Seq<char>>
    decreases cs.len(),
{
    if cs.len() == 0 {
        None
    } else if cs.last().typ == t && cs.last().string() is Some {
        cs.last().string()
    } else {
        last_string(cs.drop_last(), t)
    }
}

/// The boolean value of the last child of type `t` whose value is a boolean.
pub open spec fn last_boolean(cs: Seq<NodeView>, t: Seq<char>) -> Option<bool>
    decreases cs.len(),
{
    if cs.len() == 0 {
        None
    } else if cs.last().typ == t && cs.last().boolean() is Some {
        cs.last().boolean()
    } else {
        last_boolean(cs.drop_last(), t)
    }
}

/// The integer value of the last child of type `t` whose value is an integer.
pub open spec fn last_integer(cs: Seq<NodeView>, t: Seq<char>) -> Option<i64>
    decreases cs.len(),
{
    if cs.len() == 0 {
        None
    } else if cs.last().typ == t && cs.last().integer() is Some {
        cs.last().integer()
    } else {
        last_integer(cs.drop_last(), t)
    }
}

/// The list of strings of the last child of type `t` whose value is one.
pub open spec fn last_varargs(cs: Seq<NodeView>, t: Seq<char>) -> Option<Seq<Seq<char>>>
    decreases cs.len(),
{
    if cs.len() == 0 {
        None
    } else if cs.last().typ == t && cs.last().varargs() is Some {
        cs.last().varargs()
    } else {
        last_varargs(cs.drop_last(), t)
    }
}

/// The name and string value of the last child of type `t` that has both.
pub open spec fn last_name_string(cs: Seq<NodeView>, t: Seq<char>) -> Option<(Seq<char>, Seq<char>)>
    decreases cs.len(),
{
    if cs.len() == 0 {
        None
    } else if cs.last().typ == t && name_string_outcome(cs.last()) is Ok {
        Some(name_string_outcome(cs.last())->Ok_0)
    } else {
        last_name_string(cs.drop_last(), t)
    }
}

/// The name and list of strings of the last child of type `t` that has both.
pub open spec fn last_name_varargs(cs: Seq<NodeView>, t: Seq<char>) -> Option<(Seq<char>, Seq<Seq<char>>)>
    decreases cs.len(),
{
    if cs.len() == 0 {
        None
    } else if cs.last().typ == t && name_varargs_outcome(cs.last()) is Ok {
        Some(name_varargs_outcome(cs.last())->Ok_0)
    } else {
        last_name_varargs(cs.drop_last(), t)
    }
}

/// The first `i + 1` children are the first `i` followed by child `i`.
pub proof fn lemma_take_step<A>(s: Seq<A>, i: int)
    requires
        0 <= i < s.len(),
    ensures
        s.take(i + 1).drop_last() == s.take(i),
        s.take(i + 1).last() == s[i],
        s.take(i + 1).len() == i + 1,
{
    assert(s.take(i + 1).drop_last() =~= s.take(i));
}

pub proof fn lemma_push_last<A>(s: Seq<A>, x: A)
    ensures
        s.push(x).drop_last() == s,
        s.push(x).last() == x,
{
    assert(s.push(x).drop_last() =~= s);
}

pub proof fn lemma_take_all<A>(s: Seq<A>)
    ensures
        s.take(s.len() as int) == s,
{
    assert(s.take(s.len() as int) =~= s);
}

pub fn coerce_name(n: &Node) -> (r: Result<String, Error>)
    ensures
        match r {
            Ok(s) => name_outcome(n@) == Ok::<Seq<char>, ErrorView>(s@),
            Err(e) => name_outcome(n@) == Err::<Seq<char>, ErrorView>(e@),
        },
{
    match n.get_name() {
        Some(name) => Ok(name),
        None => Err(Error::new_name_required(n)),
    }
}

pub fn coerce_nodes(n: &Node) -> (r: Result<&Vec<Node>, Error>)
    ensures
        match r {
            Ok(ns) => n@.nodes() == Some(nodes_view(ns@)),
            Err(e) => n@.nodes() is None && e@ == child_nodes_required(n@),
        },
{
    match n.get_nodes() {
        Some(ns) => Ok(ns),
        None => Err(Error::new_child_nodes_required(n)),
    }
}

pub fn coerce_string_value(n: &Node) -> (r: Result<String, Error>)
    ensures
        match r {
            Ok(s) => string_outcome(n@) == Ok::<Seq<char>, ErrorView>(s@),
            Err(e) => string_outcome(n@) == Err::<Seq<char>, ErrorView>(e@),
        },
{
    match n.get_string_value() {
        Some(s) => Ok(s),
        None => Err(Error::new_invalid_type_attribute(n, "string")),
    }
}

pub fn coerce_name_and_string_value(n: &Node) -> (r: Result<(String, String), Error>)
    ensures
        match r {
            Ok((a, b)) => name_string_outcome(n@) == Ok::<(Seq<char>, Seq<char>), ErrorView>((a@, b@)),
            Err(e) => name_string_outcome(n@) == Err::<(Seq<char>, Seq<char>), ErrorView>(e@),
        },
{
    let name = n.get_name();
    let string = n.get_string_value();
    match name {
        None => Err(Error::new_name_required(n)),
        Some(name) => match string {
            None => Err(Error::new_invalid_type_attribute(n, "string")),
            Some(string) => Ok((name, string)),
        },
    }
}

pub fn coerce_name_and_string_varargs_value(n: &Node) -> (r: Result<(String, Vec<String>), Error>)
    ensures
        match r {
            Ok((a, b)) => name_varargs_outcome(n@) == Ok::<(Seq<char>, Seq<Seq<char>>), ErrorView>(
                (a@, b.deep_view()),
            ),
            Err(e) => name_varargs_outcome(n@) == Err::<(Seq<char>, Seq<Seq<char>>), ErrorView>(e@),
        },
{
    let name = n.get_name();
    let string_varargs = n.get_string_varargs_value();
    match name {
        None => Err(Error::new_name_required(n)),
        Some(name) => match string_varargs {
            None => Err(Error::new_invalid_type_attribute(n, "...string")),
            Some(v) => Ok((name, v)),
        },
    }
}

pub fn coerce_boolean_value(n: &Node) -> (r: Result<bool, Error>)
    ensures
        match r {
            Ok(b) => boolean_outcome(n@) == Ok::<bool, ErrorView>(b),
            Err(e) => boolean_outcome(n@) == Err::<bool, ErrorView>(e@),
        },
{
    match n.get_boolean_value() {
        Some(b) => Ok(b),
        None => Err(Error::new_invalid_type_attribute(n, "boolean")),
    }
}

pub fn coerce_integer_value(n: &Node) -> (r: Result<i64, Error>)
    ensures
        match r {
            Ok(i) => integer_outcome(n@) == Ok::<i64, ErrorView>(i),
            Err(e) => integer_outcome(n@) == Err::<i64, ErrorView>(e@),
        },
{
    match n.get_number_integer_value() {
        Some(i) => Ok(i),
        None => Err(Error::new_invalid_type_attribute(n, "integer")),
    }
}

pub fn coerce_string_varargs_value(n: &Node) -> (r: Result<Vec<String>, Error>)
    ensures
        match r {
            Ok(v) => varargs_outcome(n@) == Ok::<Seq<Seq<char>>, ErrorView>(v.deep_view()),
            Err(e) => varargs_outcome(n@) == Err::<Seq<Seq<char>>, ErrorView>(e@),
        },
{
    match n.get_string_varargs_value() {
        Some(v) => Ok(v),
        None => Err(Error::new_invalid_type_attribute(n, "...string")),
    }
}

/// With no child of type `t`, no child gives a string value of that type.
pub proof fn lemma_last_string_absent(cs: Seq<NodeView>, t: Seq<char>)
    requires
        forall|j: int| 0 <= j < cs.len() ==> (#[trigger] cs[j]).typ != t,
    ensures
        last_string(cs, t) is None,
    decreases cs.len(),
{
    if cs.len() > 0 {
        assert(cs.last().typ != t);
        assert forall|j: int| 0 <= j < cs.drop_last().len() implies (#[trigger] cs.drop_last()[j]).typ != t by {
            assert(cs.drop_last()[j] == cs[j]);
        }
        lemma_last_string_absent(cs.drop_last(), t);
    }
}

/// With one child of type `t`, the string value of that type is that child's, if it has one.
pub proof fn lemma_last_string_only(cs: Seq<NodeView>, t: Seq<char>, k: int)
    requires
        0 <= k < cs.len(),
        cs[k].typ == t,
        forall|j: int| 0 <= j < cs.len() && j != k ==> (#[trigger] cs[j]).typ != t,
    ensures
        last_string(cs, t) == cs[k].string(),
    decreases cs.len(),
{
    assert forall|j: int| 0 <= j < cs.drop_last().len() && j != k implies (#[trigger] cs.drop_last()[j]).typ != t by {
        assert(cs.drop_last()[j] == cs[j]);
    }
    if k < cs.len() - 1 {
        assert(cs.last().typ != t);
        assert(cs.drop_last()[k] == cs[k]);
        lemma_last_string_only(cs.drop_last(), t, k);
    } else {
        if cs.last().string() is None {
            assert forall|j: int| 0 <= j < cs.drop_last().len() implies (#[trigger] cs.drop_last()[j]).typ != t by {
                assert(cs.drop_last()[j] == cs[j]);
            }
            lemma_last_string_absent(cs.drop_last(), t);
        }
    }
}

/// With no child of type `t`, no child gives a boolean value of that type.
pub proof fn lemma_last_boolean_absent(cs: Seq<NodeView>, t: Seq<char>)
    requires
        forall|j: int| 0 <= j < cs.len() ==> (#[trigger] cs[j]).typ != t,
    ensures
        last_boolean(cs, t) is None,
    decreases cs.len(),
{
    if cs.len() > 0 {
        assert(cs.last().typ != t);
        assert forall|j: int| 0 <= j < cs.drop_last().len() implies (#[trigger] cs.drop_last()[j]).typ != t by {
            assert(cs.drop_last()[j] == cs[j]);
        }
        lemma_last_boolean_absent(cs.drop_last(), t);
    }
}

/// With one child of type `t`, the boolean value of that type is that child's, if it has one.
pub proof fn lemma_last_boolean_only(cs: Seq<NodeView>, t: Seq<char>, k: int)
    requires
        0 <= k < cs.len(),
        cs[k].typ == t,
        forall|j: int| 0 <= j < cs.len() && j != k ==> (#[trigger] cs[j]).typ != t,
    ensures
        last_boolean(cs, t) == cs[k].boolean(),
    decreases cs.len(),
{
    assert forall|j: int| 0 <= j < cs.drop_last().len() && j != k implies (#[trigger] cs.drop_last()[j]).typ != t by {
        assert(cs.drop_last()[j] == cs[j]);
    }
    if k < cs.len() - 1 {
        assert(cs.last().typ != t);
        assert(cs.drop_last()[k] == cs[k]);
        lemma_last_boolean_only(cs.drop_last(), t, k);
    } else {
        if cs.last().boolean() is None {
            assert forall|j: int| 0 <= j < cs.drop_last().len() implies (#[trigger] cs.drop_last()[j]).typ != t by {
                assert(cs.drop_last()[j] == cs[j]);
            }
            lemma_last_boolean_absent(cs.drop_last(), t);
        }
    }
}

/// With no child of type `t`, no child gives a integer value of that type.
pub proof fn lemma_last_integer_absent(cs: Seq<NodeView>, t: Seq<char>)
    requires
        forall|j: int| 0 <= j < cs.len() ==> (#[trigger] cs[j]).typ != t,
    ensures
        last_integer(cs, t) is None,
    decreases cs.len(),
{
    if cs.len() > 0 {
        assert(cs.last().typ != t);
        assert forall|j: int| 0 <= j < cs.drop_last().len() implies (#[trigger] cs.drop_last()[j]).typ != t by {
            assert(cs.drop_last()[j] == cs[j]);
        }
        lemma_last_integer_absent(cs.drop_last(), t);
    }
}

/// With one child of type `t`, the integer value of that type is that child's, if it has one.
pub proof fn lemma_last_integer_only(cs: Seq<NodeView>, t: Seq<char>, k: int)
    requires
        0 <= k < cs.len(),
        cs[k].typ == t,
        forall|j: int| 0 <= j < cs.len() && j != k ==> (#[trigger] cs[j]).typ != t,
    ensures
        last_integer(cs, t) == cs[k].integer(),
    decreases cs.len(),
{
    assert forall|j: int| 0 <= j < cs.drop_last().len() && j != k implies (#[trigger] cs.drop_last()[j]).typ != t by {
        assert(cs.drop_last()[j] == cs[j]);
    }
    if k < cs.len() - 1 {
        assert(cs.last().typ != t);
        assert(cs.drop_last()[k] == cs[k]);
        lemma_last_integer_only(cs.drop_last(), t, k);
    } else {
        if cs.last().integer() is None {
            assert forall|j: int| 0 <= j < cs.drop_last().len() implies (#[trigger] cs.drop_last()[j]).typ != t by {
                assert(cs.drop_last()[j] == cs[j]);
            }
            lemma_last_integer_absent(cs.drop_last(), t);
        }
    }
}

} // verus!
