//! Environment variables in the text of the project file: `$NAME` and `${NAME}` stand for
//! the value of the variable `NAME`, where it is set.
use vstd::prelude::*;
use crate::text::{chars_of, str_eq, string_of, push_char};

verus! {

/// A character that may stand in the name of a variable: an ASCII letter or digit, or `_`.
pub open spec fn is_name_char(c: char) -> bool {
    ('a' <= c && c <= 'z') || ('A' <= c && c <= 'Z') || ('0' <= c && c <= '9') || c == '_'
}

/// Where the run of name characters of `s` that starts at `j` ends.
pub open spec fn name_end(s: Seq<char>, j: int) -> int
    decreases s.len() - j,
{
    if j < 0 || j >= s.len() || !is_name_char(s[j]) {
        j
    } else {
        name_end(s, j + 1)
    }
}

/// The value of the first variable of the given name, if one is set.
pub open spec fn lookup(env: Seq<(Seq<char>, Seq<char>)>, name: Seq<char>) -> Option<Seq<char>>
    decreases env.len(),
{
    if env.len() == 0 {
        None
    } else if env[0].0 == name {
        Some(env[0].1)
    } else {
        lookup(env.drop_first(), name)
    }
}

pub proof fn lemma_name_end(s: Seq<char>, j: int)
    ensures
        j <= name_end(s, j),
        0 <= j <= s.len() ==> name_end(s, j) <= s.len(),
        forall|k: int| j <= k < name_end(s, j) ==> is_name_char(#[trigger] s[k]),
    decreases s.len() - j,
{
    if !(j < 0 || j >= s.len() || !is_name_char(s[j])) {
        lemma_name_end(s, j + 1);
    }
}

/// `s` from its character `i` on, with each `$NAME`, or `${NAME}` with its closing brace,
/// replaced by the value of the variable `NAME` where that variable is set. A name is a
/// run of ASCII letters, digits and `_`. A `$` that is not followed by a name of a set
/// variable, or whose brace is not closed right after the name, is kept as it is.
pub open spec fn expand(s: Seq<char>, i: int, env: Seq<(Seq<char>, Seq<char>)>) -> Seq<char>
    decreases s.len() - i,
{
    if i < 0 || i >= s.len() {
        Seq::empty()
    } else {
        let braced = i + 1 < s.len() && s[i + 1] == '{';
        let start = if braced { i + 2 } else { i + 1 };
        let end = name_end(s, start);
        let closed = !braced || (end < s.len() && s[end] == '}');
        proof {
            lemma_name_end(s, start);
        }
        if s[i] == '$' && end > start && closed && lookup(env, s.subrange(start, end)) is Some {
            lookup(env, s.subrange(start, end))->0 + expand(s, if braced { end + 1 } else { end }, env)
        } else {
            seq![s[i]] + expand(s, i + 1, env)
        }
    }
}

/// The variables as names and values.
pub open spec fn env_view(env: Seq<(String, String)>) -> Seq<(Seq<char>, Seq<char>)> {
    env.map_values(|p: (String, String)| (p.0@, p.1@))
}

fn is_name_character(c: char) -> (r: bool)
    ensures
        r == is_name_char(c),
{
    ('a' <= c && c <= 'z') || ('A' <= c && c <= 'Z') || ('0' <= c && c <= '9') || c == '_'
}

fn find_variable<'a>(env: &'a Vec<(String, String)>, name: &str) -> (r: Option<&'a String>)
    ensures
        match lookup(env_view(env@), name@) {
            Some(v) => r matches Some(x) && x@ == v,
            None => r is None,
        },
{
    let ghost e = env_view(env@);
    proof {
        assert(e.skip(0) =~= e);
    }
    for k in 0..env.len()
        invariant
            e == env_view(env@),
            e.len() == env@.len(),
            lookup(e, name@) == lookup(e.skip(k as int), name@),
    {
        let ghost rest = e.skip(k as int);
        proof {
            assert(rest[0] == (env@[k as int].0@, env@[k as int].1@));
            assert(rest.drop_first() =~= e.skip(k + 1));
        }
        if str_eq(env[k].0.as_str(), name) {
            return Some(&env[k].1);
        }
    }
    proof {
        assert(e.skip(e.len() as int).len() == 0);
    }
    None
}

/// `s` with each `$NAME` and `${NAME}` replaced by the value of the variable `NAME` in
/// `env`, where it is set there (see `expand`).
pub fn expand_envvar(s: &str, env: &Vec<(String, String)>) -> (r: String)
    ensures
        r@ == expand(s@, 0, env_view(env@)),
{
    let ghost e = env_view(env@);
    let cs = chars_of(s);
    let n = cs.len();
    let mut out = String::new();
    let mut i: usize = 0;
    while i < n
        invariant
            cs@ == s@,
            n == cs@.len(),
            i <= n,
            e == env_view(env@),
            expand(s@, 0, e) == out@ + expand(s@, i as int, e),
        decreases n - i,
    {
        let c = cs[i];
        let braced = i + 1 < n && cs[i + 1] == '{';
        let start = if braced { i + 2 } else { i + 1 };
        let mut end = start;
        proof {
            lemma_name_end(cs@, start as int);
        }
        while end < n && is_name_character(cs[end])
            invariant
                start <= end <= n,
                n == cs@.len(),
                name_end(cs@, start as int) == name_end(cs@, end as int),
            decreases n - end,
        {
            end = end + 1;
        }
        let closed = !braced || (end < n && cs[end] == '}');
        let ghost spec_next = expand(s@, i as int, e);
        if c == '$' && end > start && closed {
            let name = string_of(&cs, start, end);
            match find_variable(env, name.as_str()) {
                Some(value) => {
                    out.append(value.as_str());
                    i = if braced { end + 1 } else { end };
                    continue;
                },
                None => {},
            }
        }
        let ghost before = out@;
        proof {
            assert(spec_next == seq![c] + expand(s@, i + 1, e));
            assert(before + spec_next =~= before.push(c) + expand(s@, i + 1, e));
        }
        push_char(&mut out, c);
        i = i + 1;
    }
    proof {
        assert(out@ + expand(s@, n as int, e) =~= out@);
    }
    out
}

} // verus!
