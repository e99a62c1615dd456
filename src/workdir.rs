//! Resolution of a job's working directory, confined to the job's own tree.

use vstd::prelude::*;
use crate::text::{chars_of, push_all, string_of};

verus! {

/// `a` joined with `b` as a path: an absolute `b` replaces `a`, a relative one is
/// appended after a separator.
pub open spec fn join_path(a: Seq<char>, b: Seq<char>) -> Seq<char> {
    if b.len() > 0 && b[0] == '/' {
        b
    } else if a.len() == 0 || a.last() == '/' {
        a + b
    } else {
        a + seq!['/'] + b
    }
}

/// Whether the canonical path `p` is `base` or lies below it, component by component.
pub open spec fn within(p: Seq<char>, base: Seq<char>) -> bool {
    p == base || if base.len() > 0 && base.last() == '/' {
        base.is_prefix_of(p)
    } else {
        (base + seq!['/']).is_prefix_of(p)
    }
}

/// The directory a job runs in, whether its configured subdirectory was refused,
/// and the canonical job directory it was checked against, if any.
pub struct WorkDir {
    pub path: String,
    pub rejected: bool,
    pub base: Option<String>,
}

/// Whether a path is absolute.
pub open spec fn absolute(p: Seq<char>) -> bool {
    p.len() > 0 && p[0] == '/'
}

/// A directory accepted inside its canonical job directory: both absolute, the
/// first within the second.
pub open spec fn confined(path: Seq<char>, base: Option<String>) -> bool {
    match base {
        Some(b) => absolute(path) && absolute(b@) && within(path, b@),
        None => false,
    }
}

/// The end of the path component that starts at `i`: the next `/`, or the end.
pub open spec fn component_end(s: Seq<char>, i: int) -> int
    decreases s.len() - i,
{
    if i >= s.len() || s[i] == '/' {
        i
    } else {
        component_end(s, i + 1)
    }
}

/// Whether the components of `s` from position `i` on, starting `depth` levels
/// below the root, climb above it: `..` goes up, `.` and empty components stay.
pub open spec fn climbs_from(s: Seq<char>, i: int, depth: int) -> bool
    decreases s.len() - i,
{
    if i < 0 || i >= s.len() {
        false
    } else {
        let e = component_end(s, i);
        let c = s.subrange(i, e);
        let d = if c == ".."@ {
            depth - 1
        } else if c.len() == 0 || c == "."@ {
            depth
        } else {
            depth + 1
        };
        if d < 0 {
            true
        } else if e >= s.len() || e < i {
            false
        } else {
            climbs_from(s, e + 1, d)
        }
    }
}

/// Whether a configured working directory leaves its root by its text alone:
/// it is absolute, or its `..` components climb above where it starts.
pub open spec fn escapes(dir: Seq<char>) -> bool {
    absolute(dir) || climbs_from(dir, 0, 0)
}

/// Joins two paths as a filesystem path does.
pub fn join_paths(a: &str, b: &str) -> (r: String)
    ensures
        r@ == join_path(a@, b@),
{
    let bv = chars_of(b);
    if bv.len() > 0 && bv[0] == '/' {
        return string_of(&bv);
    }
    let mut out = chars_of(a);
    if out.len() > 0 && out[out.len() - 1] != '/' {
        out.push('/');
    }
    push_all(&mut out, &bv);
    string_of(&out)
}

fn is_prefix(p: &Vec<char>, s: &Vec<char>) -> (r: bool)
    ensures
        r == p@.is_prefix_of(s@),
{
    if p.len() > s.len() {
        return false;
    }
    let mut i: usize = 0;
    while i < p.len()
        invariant
            i <= p@.len(),
            p@.len() <= s@.len(),
            forall|k: int| 0 <= k < i ==> p@[k] == s@[k],
        decreases p@.len() - i,
    {
        if p[i] != s[i] {
            return false;
        }
        i = i + 1;
    }
    true
}

/// Whether the canonical path `p` is `base` or lies inside it.
pub fn path_within(p: &str, base: &str) -> (r: bool)
    ensures
        r == within(p@, base@),
{
    let pv = chars_of(p);
    let mut bv = chars_of(base);
    if is_prefix(&bv, &pv) && pv.len() == bv.len() {
        assert(pv@ =~= bv@);
        return true;
    }
    if bv.len() == 0 || bv[bv.len() - 1] != '/' {
        bv.push('/');
    }
    let r = is_prefix(&bv, &pv);
    proof {
        if pv@ == base@ {
            assert(bv@.len() == pv@.len() + 1 || base@.is_prefix_of(pv@));
        }
    }
    r
}

/// Picks the working directory from the canonical forms of the requested directory
/// and of the job directory: the requested one only where both exist and it lies
/// inside the job directory, the job directory otherwise.
pub fn choose_work_dir(job_dir: String, resolved: Option<String>, base: Option<String>) -> (r: WorkDir)
    ensures
        (match (resolved, base) {
            (Some(p), Some(b)) => within(p@, b@),
            _ => false,
        }) ==> r.path@ == resolved.unwrap()@ && !r.rejected,
        !(match (resolved, base) {
            (Some(p), Some(b)) => within(p@, b@),
            _ => false,
        }) ==> r.path@ == job_dir@ && r.rejected,
        r.base == base,
{
    match (resolved, base) {
        (Some(p), Some(b)) => {
            if path_within(p.as_str(), b.as_str()) {
                WorkDir { path: p, rejected: false, base: Some(b) }
            } else {
                WorkDir { path: job_dir, rejected: true, base: Some(b) }
            }
        },
        (_, base) => WorkDir { path: job_dir, rejected: true, base },
    }
}

/// Whether a configured working directory leaves its root by its text alone.
pub fn escapes_root(dir: &str) -> (r: bool)
    ensures
        r == escapes(dir@),
{
    proof {
        reveal_strlit("..");
        reveal_strlit(".");
    }
    let s = chars_of(dir);
    if s.len() > 0 && s[0] == '/' {
        return true;
    }
    let mut start: usize = 0;
    let mut depth: usize = 0;
    while start < s.len()
        invariant
            start <= s@.len(),
            s@ == dir@,
            !absolute(s@),
            depth <= start,
            climbs_from(s@, 0, 0) == climbs_from(s@, start as int, depth as int),
        decreases s@.len() - start,
    {
        let mut e: usize = start;
        while e < s.len() && s[e] != '/'
            invariant
                start <= e <= s@.len(),
                component_end(s@, start as int) == component_end(s@, e as int),
            decreases s@.len() - e,
        {
            e = e + 1;
        }
        assert(component_end(s@, e as int) == e);
        let ghost c = s@.subrange(start as int, e as int);
        let len = e - start;
        let dotdot = len == 2 && s[start] == '.' && s[start + 1] == '.';
        let dot = len == 1 && s[start] == '.';
        proof {
            reveal_strlit("..");
            reveal_strlit(".");
            assert(c.len() == len);
            if len >= 1 {
                assert(c[0] == s@[start as int]);
            }
            if len >= 2 {
                assert(c[1] == s@[start + 1]);
            }
            assert(dotdot <==> c == ".."@) by {
                if dotdot {
                    assert(c =~= ".."@);
                }
                if c == ".."@ {
                    assert(c[0] == ".."@[0] && c[1] == ".."@[1]);
                }
            }
            assert(dot <==> c == "."@) by {
                if dot {
                    assert(c =~= "."@);
                }
                if c == "."@ {
                    assert(c[0] == "."@[0]);
                }
            }
        }
        let ghost d0 = depth as int;
        let ghost d1 = if c == ".."@ {
            d0 - 1
        } else if c.len() == 0 || c == "."@ {
            d0
        } else {
            d0 + 1
        };
        assert(climbs_from(s@, start as int, d0) == if d1 < 0 {
            true
        } else if e >= s@.len() {
            false
        } else {
            climbs_from(s@, e + 1, d1)
        });
        if dotdot {
            if depth == 0 {
                return true;
            }
            depth = depth - 1;
        } else if !(len == 0 || dot) {
            depth = depth + 1;
        }
        assert(depth as int == d1);
        if e >= s.len() {
            return false;
        }
        start = e + 1;
    }
    false
}

/// A path that begins by climbing to the parent (`../...`) escapes its root.
pub proof fn lemma_parent_first_escapes(rest: Seq<char>)
    ensures
        escapes("../"@ + rest),
{
    reveal_strlit("../");
    reveal_strlit("..");
    let s = "../"@ + rest;
    assert(s[0] == '.' && s[1] == '.' && s[2] == '/');
    assert(component_end(s, 2) == 2);
    assert(component_end(s, 1) == 2);
    assert(component_end(s, 0) == 2);
    assert(s.subrange(0, 2) =~= ".."@);
}

/// Relies on `Path::canonicalize`, documented to return the canonical, absolute
/// form of `p` with `..` and symbolic links resolved; the result depends on what
/// is on disk, and is `None` where that fails.
#[verifier::external_body]
fn canonical(p: &str) -> (r: Option<String>)
    ensures
        r matches Some(c) ==> absolute(c@),
{
    std::path::Path::new(p).canonicalize().ok().and_then(|c| c.to_str().map(|s| s.to_string()))
}

/// The directory job commands run in: the job directory, or the configured
/// subdirectory of it where that does not escape by its text and its canonical
/// form lies inside the canonical job directory.
pub fn resolve_work_dir_in(job_dir: &str, working_dir: &Option<String>) -> (r: WorkDir)
    ensures
        working_dir is None ==> r.path@ == job_dir@ && !r.rejected,
        r.rejected ==> r.path@ == job_dir@,
        working_dir matches Some(d) && escapes(d@) ==> r.rejected,
        working_dir is Some && !r.rejected ==> confined(r.path@, r.base),
{
    match working_dir {
        Some(dir) => {
            if escapes_root(dir.as_str()) {
                return WorkDir { path: String::from_str(job_dir), rejected: true, base: None };
            }
            let joined = join_paths(job_dir, dir.as_str());
            let resolved = canonical(joined.as_str());
            let base = canonical(job_dir);
            choose_work_dir(String::from_str(job_dir), resolved, base)
        },
        None => WorkDir { path: String::from_str(job_dir), rejected: false, base: None },
    }
}

/// The directory the commands of job `job_id` run in, for the mirror at `sot_path`.
pub fn resolve_work_dir(sot_path: &str, job_id: &str, working_dir: &Option<String>) -> (r: WorkDir)
    ensures
        exists|base: Seq<char>| {
            let jd = crate::paths::join(#[trigger] crate::paths::cache_root(base), crate::paths::job_dir_name_spec(sot_path@, job_id@));
            &&& working_dir is None ==> r.path@ == jd && !r.rejected
            &&& r.rejected ==> r.path@ == jd
        },
        working_dir matches Some(d) && escapes(d@) ==> r.rejected,
        working_dir is Some && !r.rejected ==> confined(r.path@, r.base),
{
    let job_dir = crate::paths::get_job_dir(sot_path, job_id);
    resolve_work_dir_in(job_dir.as_str(), working_dir)
}

} // verus!
