//! Parsing of `.env`-style environment overrides.

use vstd::prelude::*;
use crate::text::{chars_of, string_of};

verus! {

/// Whether `c` has the Unicode `White_Space` property.
pub open spec fn white_space(c: char) -> bool {
    let u = c as u32;
    u == 0x20 || (0x09 <= u && u <= 0x0d) || u == 0x85 || u == 0xa0 || u == 0x1680 || (0x2000 <= u && u
        <= 0x200a) || u == 0x2028 || u == 0x2029 || u == 0x202f || u == 0x205f || u == 0x3000
}

/// Whether `c` has the Unicode `White_Space` property.
pub fn is_white_space(c: char) -> (r: bool)
    ensures
        r == white_space(c),
{
    let u = c as u32;
    u == 0x20 || (0x09 <= u && u <= 0x0d) || u == 0x85 || u == 0xa0 || u == 0x1680 || (0x2000 <= u && u
        <= 0x200a) || u == 0x2028 || u == 0x2029 || u == 0x202f || u == 0x205f || u == 0x3000
}

/// `s` without leading white space.
pub open spec fn trim_start(s: Seq<char>) -> Seq<char>
    decreases s.len(),
{
    if s.len() > 0 && white_space(s[0]) {
        trim_start(s.drop_first())
    } else {
        s
    }
}

/// `s` without trailing white space.
pub open spec fn trim_end(s: Seq<char>) -> Seq<char>
    decreases s.len(),
{
    if s.len() > 0 && white_space(s.last()) {
        trim_end(s.drop_last())
    } else {
        s
    }
}

/// `s` without leading and trailing white space.
pub open spec fn trim(s: Seq<char>) -> Seq<char> {
    trim_start(trim_end(s))
}

/// A value without the pair of double or single quotes that encloses it, if any.
pub open spec fn unquote(v: Seq<char>) -> Seq<char> {
    if v.len() >= 2 && ((v[0] == '"' && v.last() == '"') || (v[0] == '\'' && v.last() == '\'')) {
        v.subrange(1, v.len() - 1)
    } else {
        v
    }
}

/// The position of the first `=` in `s` at or after `i`, if any.
pub open spec fn find_eq(s: Seq<char>, i: int) -> Option<int>
    decreases s.len() - i,
{
    if i < 0 || i >= s.len() {
        None
    } else if s[i] == '=' {
        Some(i)
    } else {
        find_eq(s, i + 1)
    }
}

/// `vars` with `key` set to `value`: in place where the key is there, at the end otherwise.
pub open spec fn assign(vars: Seq<(Seq<char>, Seq<char>)>, key: Seq<char>, value: Seq<char>) -> Seq<
    (Seq<char>, Seq<char>),
> {
    if exists|i: int| 0 <= i < vars.len() && (#[trigger] vars[i]).0 == key {
        let i = choose|i: int| 0 <= i < vars.len() && (#[trigger] vars[i]).0 == key;
        vars.update(i, (key, value))
    } else {
        vars.push((key, value))
    }
}

/// `vars` after one line: blank lines, comments (`#`) and lines without `=` change
/// nothing; `KEY=VALUE` sets the trimmed key to the trimmed, unquoted value.
pub open spec fn apply_line(vars: Seq<(Seq<char>, Seq<char>)>, line: Seq<char>) -> Seq<(Seq<char>, Seq<char>)> {
    let t = trim(line);
    if t.len() == 0 || t[0] == '#' {
        vars
    } else {
        match find_eq(t, 0) {
            Some(i) => assign(vars, trim(t.take(i)), unquote(trim(t.subrange(i + 1, t.len() as int)))),
            None => vars,
        }
    }
}

/// The end of the line that starts at `i`: the next newline, or the end of `s`.
pub open spec fn line_end(s: Seq<char>, i: int) -> int
    decreases s.len() - i,
{
    if i >= s.len() || s[i] == '\n' {
        i
    } else {
        line_end(s, i + 1)
    }
}

/// `vars` after the lines of `s` from position `start` on.
pub open spec fn parse_from(s: Seq<char>, start: int, vars: Seq<(Seq<char>, Seq<char>)>) -> Seq<
    (Seq<char>, Seq<char>),
>
    decreases s.len() - start,
{
    if start < 0 || start > s.len() {
        vars
    } else {
        let e = line_end(s, start);
        let next = apply_line(vars, s.subrange(start, e));
        if e >= s.len() || e < start {
            next
        } else {
            parse_from(s, e + 1, next)
        }
    }
}

/// The variables that a `.env` text sets, each once, in the order they first appear.
pub open spec fn env_spec(content: Seq<char>) -> Seq<(Seq<char>, Seq<char>)> {
    parse_from(content, 0, Seq::empty())
}

/// The views of a list of variables.
pub open spec fn vars_view(v: Seq<(String, String)>) -> Seq<(Seq<char>, Seq<char>)> {
    v.map_values(|p: (String, String)| (p.0@, p.1@))
}

/// The bounds of `s[from..to]` once white space is trimmed from both ends.
fn trim_bounds(s: &Vec<char>, from: usize, to: usize) -> (r: (usize, usize))
    requires
        from <= to <= s@.len(),
    ensures
        from <= r.0 <= r.1 <= to,
        s@.subrange(r.0 as int, r.1 as int) == trim(s@.subrange(from as int, to as int)),
{
    let mut b: usize = to;
    while b > from && is_white_space(s[b - 1])
        invariant
            from <= b <= to,
            to <= s@.len(),
            trim_end(s@.subrange(from as int, to as int)) == trim_end(s@.subrange(from as int, b as int)),
        decreases b,
    {
        assert(s@.subrange(from as int, b as int).drop_last() =~= s@.subrange(from as int, b - 1));
        b = b - 1;
    }
    assert(trim_end(s@.subrange(from as int, b as int)) == s@.subrange(from as int, b as int));
    let mut a: usize = from;
    while a < b && is_white_space(s[a])
        invariant
            from <= a <= b,
            b <= to,
            to <= s@.len(),
            trim_start(s@.subrange(from as int, b as int)) == trim_start(s@.subrange(a as int, b as int)),
        decreases b - a,
    {
        assert(s@.subrange(a as int, b as int).drop_first() =~= s@.subrange(a + 1, b as int));
        a = a + 1;
    }
    (a, b)
}

/// The position of the first `=` in `s[from..to]`.
fn find_eq_in(s: &Vec<char>, from: usize, to: usize) -> (r: Option<usize>)
    requires
        from <= to <= s@.len(),
    ensures
        match find_eq(s@.subrange(from as int, to as int), 0) {
            Some(i) => r is Some && r.unwrap() as int == from + i,
            None => r is None,
        },
        r matches Some(q) ==> from <= q < to && s@[q as int] == '=',
{
    let ghost t = s@.subrange(from as int, to as int);
    let mut i: usize = from;
    while i < to
        invariant
            from <= i <= to,
            to <= s@.len(),
            t == s@.subrange(from as int, to as int),
            find_eq(t, 0) == find_eq(t, i - from),
        decreases to - i,
    {
        if s[i] == '=' {
            return Some(i);
        }
        i = i + 1;
    }
    None
}

fn sub_string(s: &Vec<char>, from: usize, to: usize) -> (r: String)
    requires
        from <= to <= s@.len(),
    ensures
        r@ == s@.subrange(from as int, to as int),
{
    let mut out: Vec<char> = Vec::new();
    let mut i: usize = from;
    while i < to
        invariant
            from <= i <= to,
            to <= s@.len(),
            out@ == s@.subrange(from as int, i as int),
        decreases to - i,
    {
        out.push(s[i]);
        i = i + 1;
        assert(s@.subrange(from as int, i as int) =~= s@.subrange(from as int, i - 1).push(s@[i - 1]));
    }
    string_of(&out)
}

/// Sets `key` to `value` in `vars`.
fn assign_var(vars: &mut Vec<(String, String)>, key: String, value: String)
    requires
        unique_keys(vars_view(old(vars)@)),
    ensures
        vars_view(final(vars)@) == assign(vars_view(old(vars)@), key@, value@),
        unique_keys(vars_view(final(vars)@)),
{
    let ghost old_view = vars_view(vars@);
    let mut i: usize = 0;
    while i < vars.len()
        invariant
            i <= vars@.len(),
            vars@ == old(vars)@,
            old_view == vars_view(vars@),
            unique_keys(old_view),
            forall|k: int| 0 <= k < i ==> (#[trigger] vars@[k]).0@ != key@,
        decreases vars@.len() - i,
    {
        if vars[i].0 == key {
            proof {
                assert(old_view[i as int].0 == key@);
                let c = choose|c: int| 0 <= c < old_view.len() && (#[trigger] old_view[c]).0 == key@;
                assert(c == i as int);
            }
            vars.set(i, (key, value));
            proof {
                let nv = vars_view(vars@);
                assert(nv =~= old_view.update(i as int, (key@, value@)));
                assert forall|x: int, y: int| 0 <= x < nv.len() && 0 <= y < nv.len() && x != y implies (#[trigger] nv[x]).0
                    != (#[trigger] nv[y]).0 by {
                    assert(nv[x].0 == old_view[x].0);
                    assert(nv[y].0 == old_view[y].0);
                }
            }
            return;
        }
        i = i + 1;
    }
    proof {
        assert forall|k: int| 0 <= k < old_view.len() implies (#[trigger] old_view[k]).0 != key@ by {
            assert(old_view[k].0 == vars@[k].0@);
        }
    }
    vars.push((key, value));
    proof {
        let nv = vars_view(vars@);
        assert(nv =~= old_view.push((key@, value@)));
        assert forall|x: int, y: int| 0 <= x < nv.len() && 0 <= y < nv.len() && x != y implies (#[trigger] nv[x]).0
            != (#[trigger] nv[y]).0 by {
            if x < old_view.len() {
                assert(nv[x] == old_view[x]);
            }
            if y < old_view.len() {
                assert(nv[y] == old_view[y]);
            }
        }
    }
}

/// No key appears twice.
pub open spec fn unique_keys(v: Seq<(Seq<char>, Seq<char>)>) -> bool {
    forall|i: int, j: int| 0 <= i < v.len() && 0 <= j < v.len() && i != j ==> (#[trigger] v[i]).0 != (#[trigger] v[j]).0
}

/// Each variable of a `.env` text once, with the value of its last assignment, in
/// the order the variables first appear. Malformed lines are skipped.
pub fn parse_env(content: &str) -> (r: Vec<(String, String)>)
    ensures
        vars_view(r@) == env_spec(content@),
        unique_keys(vars_view(r@)),
{
    let s = chars_of(content);
    let mut vars: Vec<(String, String)> = Vec::new();
    let mut start: usize = 0;
    assert(vars_view(vars@) =~= Seq::<(Seq<char>, Seq<char>)>::empty());
    loop
        invariant
            start <= s@.len(),
            s@ == content@,
            unique_keys(vars_view(vars@)),
            parse_from(s@, start as int, vars_view(vars@)) == env_spec(content@),
        decreases s@.len() - start,
    {
        let mut e: usize = start;
        while e < s.len() && s[e] != '\n'
            invariant
                start <= e <= s@.len(),
                line_end(s@, start as int) == line_end(s@, e as int),
            decreases s@.len() - e,
        {
            e = e + 1;
        }
        let ghost before = vars_view(vars@);
        let (a, b) = trim_bounds(&s, start, e);
        assert(s@.subrange(a as int, b as int) =~= trim(s@.subrange(start as int, e as int)));
        let ghost tt = s@.subrange(a as int, b as int);
        if a < b {
            assert(tt[0] == s@[a as int]);
        }
        if a < b && s[a] != '#' {
            match find_eq_in(&s, a, b) {
                Some(q) => {
                    let (ka, kb) = trim_bounds(&s, a, q);
                    let (va, vb) = trim_bounds(&s, q + 1, b);
                    let ghost t = s@.subrange(a as int, b as int);
                    assert(t.take(q - a) =~= s@.subrange(a as int, q as int));
                    assert(t.subrange(q - a + 1, t.len() as int) =~= s@.subrange(q + 1, b as int));
                    let key = sub_string(&s, ka, kb);
                    let quoted = vb - va >= 2 && ((s[va] == '"' && s[vb - 1] == '"') || (s[va] == '\'' && s[vb
                        - 1] == '\''));
                    let value = if quoted {
                        sub_string(&s, va + 1, vb - 1)
                    } else {
                        sub_string(&s, va, vb)
                    };
                    proof {
                        let v = s@.subrange(va as int, vb as int);
                        if quoted {
                            assert(v.subrange(1, v.len() - 1) =~= s@.subrange(va + 1, vb - 1));
                        }
                        assert(value@ == unquote(v));
                    }
                    assign_var(&mut vars, key, value);
                    assert(find_eq(tt, 0) == Some(q - a));
                },
                None => {
                    assert(find_eq(tt, 0) is None);
                },
            }
        }
        assert(vars_view(vars@) == apply_line(before, s@.subrange(start as int, e as int)));
        if e >= s.len() {
            return vars;
        }
        start = e + 1;
    }
}

} // verus!
