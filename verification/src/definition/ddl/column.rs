//! Columns: `column <name>` whose value is a column expression such as `text! = 'x'`:
//! the data type, `!` for a column that is not null, and `= <default>`.
use vstd::prelude::*;
use crate::definition::base::node::{Node, NodeView, ValueView, new_node};
use crate::snapshot::{Column, ColumnView};
use crate::text::{chars_of, trimmed_string_of, is_whitespace, is_ws, trim, leading_ws,
    lemma_leading_ws_exact, is_trimmed, lemma_trim_trimmed, lemma_trim_ws_prefix, lemma_trim_ws_suffix};
#[allow(unused_imports)]
use vstd::view::View as ViewTrait;
use super::coerce::{coerce_name, coerce_string_value, name_outcome, string_outcome};
use super::context::Context;
use super::error::{Error, ErrorView, result_view, has_errors};

verus! {

/// The characters that end the data type of a column expression.
pub open spec fn is_mark(c: char) -> bool {
    c == '=' || c == '!'
}

/// The position of the first `=` or `!`, or the length where there is none.
pub open spec fn first_mark(s: Seq<char>) -> nat
    decreases s.len(),
{
    if s.len() == 0 || is_mark(s[0]) {
        0
    } else {
        1 + first_mark(s.drop_first())
    }
}

pub proof fn lemma_first_mark_exact(s: Seq<char>, k: int)
    requires
        0 <= k <= s.len(),
        forall|i: int| 0 <= i < k ==> !is_mark(#[trigger] s[i]),
        k < s.len() ==> is_mark(s[k]),
    ensures
        first_mark(s) == k,
    decreases s.len(),
{
    if k > 0 {
        let t = s.drop_first();
        assert forall|i: int| 0 <= i < k - 1 implies !is_mark(#[trigger] t[i]) by {
            assert(t[i] == s[i + 1]);
        }
        if k - 1 < t.len() {
            assert(t[k - 1] == s[k]);
        }
        assert(!is_mark(s[0]));
        lemma_first_mark_exact(t, k - 1);
    }
}

/// The text after `=` that a default is read from: it has text other than whitespace and
/// no line break after its leading whitespace, or it is whitespace that does not end in a
/// line break.
pub open spec fn default_ok(u: Seq<char>) -> bool {
    let w = leading_ws(u) as int;
    if w < u.len() {
        forall|i: int| w <= i < u.len() ==> u[i] != '\n'
    } else {
        u.len() > 0 && u.last() != '\n'
    }
}

/// What a column expression reads as: the trimmed data type before the first `=` or `!`,
/// whether a `!` follows it, and the trimmed default after an `=`. The data type must not
/// be empty; after `!` only an `= <default>` part may follow, with whitespace before the `=`.
pub open spec fn column_expression(s: Seq<char>) -> Option<(Seq<char>, bool, Option<Seq<char>>)> {
    let p = first_mark(s) as int;
    if p == 0 {
        None
    } else if p == s.len() {
        Some((trim(s), false, None))
    } else if s[p] == '!' {
        let r = s.skip(p + 1);
        if r.len() == 0 {
            Some((trim(s.take(p)), true, None))
        } else {
            let a = leading_ws(r) as int;
            if a < r.len() && r[a] == '=' && default_ok(r.skip(a + 1)) {
                Some((trim(s.take(p)), true, Some(trim(r.skip(a + 1)))))
            } else {
                None
            }
        }
    } else {
        let u = s.skip(p + 1);
        if default_ok(u) {
            Some((trim(s.take(p)), false, Some(trim(u))))
        } else {
            None
        }
    }
}

/// The column expression a data type, not-null flag and default are written as.
pub open spec fn column_expression_text(data_type: Seq<char>, not_null: bool, default: Option<Seq<char>>) -> Seq<char> {
    let a = if not_null { data_type + "!"@ } else { data_type };
    match default {
        Some(d) => a + " = "@ + d,
        None => a,
    }
}

/// Counts the whitespace in `cs[from..]` up to the first other character.
fn skip_ws(cs: &Vec<char>, from: usize) -> (r: usize)
    requires
        from <= cs@.len(),
    ensures
        from <= r <= cs@.len(),
        r - from == leading_ws(cs@.skip(from as int)),
{
    let ghost u = cs@.skip(from as int);
    let mut a = from;
    while a < cs.len() && is_whitespace(cs[a])
        invariant
            from <= a <= cs@.len(),
            u == cs@.skip(from as int),
            forall|i: int| 0 <= i < a - from ==> is_ws(#[trigger] u[i]),
        decreases cs@.len() - a,
    {
        assert(u[a - from] == cs@[a as int]);
        a = a + 1;
    }
    proof {
        if a < cs.len() {
            assert(u[a - from] == cs@[a as int]);
        }
        lemma_leading_ws_exact(u, a - from);
    }
    a
}

/// Whether the text `cs[from..]` is one a default can be read from.
fn default_text_ok(cs: &Vec<char>, from: usize) -> (r: bool)
    requires
        from <= cs@.len(),
    ensures
        r == default_ok(cs@.skip(from as int)),
{
    let ghost u = cs@.skip(from as int);
    let w = skip_ws(cs, from);
    let n = cs.len();
    if w < n {
        let mut j = w;
        while j < n && cs[j] != '\n'
            invariant
                from <= w <= j <= n,
                n == cs@.len(),
                u == cs@.skip(from as int),
                forall|i: int| w - from <= i < j - from ==> u[i] != '\n',
            decreases n - j,
        {
            assert(u[j - from] == cs@[j as int]);
            j = j + 1;
        }
        if j < n {
            assert(u[j - from] == cs@[j as int]);
        }
        j == n
    } else {
        proof {
            if n > from {
                assert(u.last() == cs@[n - 1]);
            }
        }
        n > from && cs[n - 1] != '\n'
    }
}

pub fn parse_column_expression(input: &str) -> (r: Result<(String, bool, Option<String>), Error>)
    ensures
        match r {
            Ok((a, b, c)) => column_expression(input@) == Some((a@, b, c.deep_view())),
            Err(e) => column_expression(input@) is None
                && e@ == (ErrorView::InvalidTypeExpression { type_expression: input@ }),
        },
{
    let cs = chars_of(input);
    let ghost s = input@;
    let n = cs.len();
    let mut p: usize = 0;
    while p < n && cs[p] != '=' && cs[p] != '!'
        invariant
            p <= n,
            n == cs@.len(),
            cs@ == s,
            forall|i: int| 0 <= i < p ==> !is_mark(#[trigger] s[i]),
        decreases n - p,
    {
        p = p + 1;
    }
    proof {
        lemma_first_mark_exact(s, p as int);
    }
    if p == 0 {
        return Err(Error::new_invalid_type_expression(input.to_owned()));
    }
    if p == n {
        proof {
            assert(cs@.subrange(0, n as int) =~= s);
        }
        return Ok((trimmed_string_of(&cs, 0, n), false, None));
    }
    proof {
        assert(cs@.subrange(0, p as int) =~= s.take(p as int));
    }
    let data_type = trimmed_string_of(&cs, 0, p);
    let mut not_null = false;
    let mut q = p + 1;
    if cs[p] == '!' {
        not_null = true;
        let ghost r = s.skip(p + 1);
        if p + 1 == n {
            return Ok((data_type, true, None));
        }
        let a = skip_ws(&cs, p + 1);
        proof {
            if a < n {
                assert(r[a - (p + 1)] == cs@[a as int]);
                assert(r.skip(a - (p + 1) + 1) =~= cs@.skip(a + 1));
            }
        }
        if a < n && cs[a] == '=' {
            q = a + 1;
        } else {
            return Err(Error::new_invalid_type_expression(input.to_owned()));
        }
    }
    if !default_text_ok(&cs, q) {
        return Err(Error::new_invalid_type_expression(input.to_owned()));
    }
    proof {
        assert(cs@.subrange(q as int, n as int) =~= cs@.skip(q as int));
    }
    Ok((data_type, not_null, Some(trimmed_string_of(&cs, q, n))))
}

pub fn render_column_expression(data_type: &str, not_null: bool, default_expr: &Option<String>) -> (r: String)
    ensures
        r@ == column_expression_text(data_type@, not_null, default_expr.deep_view()),
{
    let mut expr = data_type.to_owned();
    if not_null {
        expr.append("!");
    }
    if let Some(default_str) = default_expr {
        expr.append(" = ");
        expr.append(default_str.as_str());
    }
    expr
}

/// What a `column` node reads as, as a column of the given table.
pub open spec fn parse_column(schema_name: Seq<char>, table_name: Seq<char>, n: NodeView) -> Result<ColumnView, ErrorView> {
    match name_outcome(n) {
        Err(e) => Err(e),
        Ok(name) => match string_outcome(n) {
            Err(e) => Err(e),
            Ok(expr) => match column_expression(expr) {
                None => Err(has_errors(n, seq![ErrorView::InvalidTypeExpression { type_expression: expr }])),
                Some((data_type, not_null, default)) => Ok(ColumnView {
                    schema_name,
                    table_name,
                    name,
                    data_type,
                    not_null,
                    default,
                }),
            },
        },
    }
}

/// The node a column is written as.
pub open spec fn render_column(def: ColumnView) -> NodeView {
    new_node("column"@).with_name(def.name).with_value(
        ValueView::String(column_expression_text(def.data_type, def.not_null, def.default)),
    )
}

pub fn parse_column_definition(schema: &str, table: &str, n: &Node) -> (r: Result<Column, Error>)
    requires
        n@.typ == "column"@,
    ensures
        result_view(r) == parse_column(schema@, table@, n@),
{
    let name = coerce_name(n)?;
    let type_expr_str = coerce_string_value(n)?;
    match parse_column_expression(type_expr_str.as_str()) {
        Ok((data_type, not_null, default)) => Ok(Column {
            schema_name: schema.to_owned(),
            table_name: table.to_owned(),
            name,
            data_type,
            not_null,
            default,
        }),
        Err(err) => {
            let mut errors: Vec<Error> = Vec::new();
            errors.push(err);
            proof {
                crate::definition::ddl::error::lemma_errors_view_push(Seq::empty(), err);
                assert(Seq::<Error>::empty().push(err) =~= errors@);
            }
            Err(Error::new_has_errors(n, errors))
        },
    }
}

pub fn render_column_definition(ctx: &Context, def: &Column) -> (r: Node)
    ensures
        r@ == render_column(def@),
{
    let type_expr_str = render_column_expression(def.data_type.as_str(), def.not_null, &def.default);
    Node::new("column").with_name(def.name.clone()).with_string_value(type_expr_str)
}

/// What a column expression can be written from and read back as: a data type that is
/// not empty, has no `=` or `!` and no whitespace at its ends, and a default without line
/// breaks and without whitespace at its ends.
pub open spec fn column_expression_writable(data_type: Seq<char>, default: Option<Seq<char>>) -> bool {
    &&& data_type.len() > 0
    &&& forall|i: int| 0 <= i < data_type.len() ==> !is_mark(#[trigger] data_type[i])
    &&& is_trimmed(data_type)
    &&& default matches Some(d) ==> is_trimmed(d) && forall|i: int| 0 <= i < d.len() ==> #[trigger] d[i] != '\n'
}

/// The text after ` = ` reads back as the default that was written.
proof fn lemma_default_text(d: Seq<char>)
    requires
        is_trimmed(d),
        forall|i: int| 0 <= i < d.len() ==> #[trigger] d[i] != '\n',
    ensures
        default_ok(seq![' '] + d),
        trim(seq![' '] + d) == d,
{
    let u = seq![' '] + d;
    assert(is_ws(' '));
    assert(u[0] == ' ');
    if d.len() > 0 {
        assert(u[1] == d[0]);
    }
    lemma_leading_ws_exact(u, 1);
    assert forall|i: int| 1 <= i < u.len() implies u[i] != '\n' by {
        assert(u[i] == d[i - 1]);
    }
    lemma_trim_ws_prefix(seq![' '], d);
    lemma_trim_trimmed(d);
}

/// Reading back the column expression a data type, not-null flag and default are written
/// as gives them back.
pub proof fn lemma_column_expression_roundtrip(data_type: Seq<char>, not_null: bool, default: Option<Seq<char>>)
    requires
        column_expression_writable(data_type, default),
    ensures
        column_expression(column_expression_text(data_type, not_null, default)) == Some((data_type, not_null, default)),
{
    reveal_strlit("!");
    reveal_strlit(" = ");
    let s = column_expression_text(data_type, not_null, default);
    let k = data_type.len() as int;
    lemma_trim_trimmed(data_type);
    assert forall|i: int| 0 <= i < k implies !is_mark(#[trigger] s[i]) by {
        assert(s[i] == data_type[i]);
    }
    match default {
        None => {
            if not_null {
                assert(s[k] == '!');
                lemma_first_mark_exact(s, k);
                assert(s.skip(k + 1).len() == 0);
                assert(s.take(k) =~= data_type);
            } else {
                lemma_first_mark_exact(s, k);
            }
        },
        Some(d) => {
            lemma_default_text(d);
            let u = seq![' '] + d;
            if not_null {
                assert(s[k] == '!');
                lemma_first_mark_exact(s, k);
                let r = s.skip(k + 1);
                assert(r =~= seq![' ', '='] + u);
                assert(is_ws(' '));
                assert(!is_ws('='));
                lemma_leading_ws_exact(r, 1);
                assert(r.skip(2) =~= u);
                assert(s.take(k) =~= data_type);
            } else {
                assert(s[k] == ' ');
                assert(s[k + 1] == '=');
                lemma_first_mark_exact(s, k + 1);
                assert(s.skip(k + 2) =~= u);
                assert(s.take(k + 1) =~= data_type + seq![' ']);
                lemma_trim_ws_suffix(data_type, seq![' ']);
            }
        },
    }
}

/// Reading back the node a column is written as gives the same column, provided that its
/// expression can be written and read back.
pub proof fn lemma_column_roundtrip(def: ColumnView)
    requires
        column_expression_writable(def.data_type, def.default),
    ensures
        parse_column(def.schema_name, def.table_name, render_column(def)) == Ok::<ColumnView, ErrorView>(def),
{
    lemma_column_expression_roundtrip(def.data_type, def.not_null, def.default);
}

} // verus!
