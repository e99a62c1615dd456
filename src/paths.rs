//! Names of the source mirror and of the per-job working directories.

use vstd::prelude::*;
use std::collections::hash_map::DefaultHasher;
use std::hash::Hasher;
use vstd::std_specs::hash::DefaultHasherAdditionalSpecFns;
use vstd::string::StringSliceAdditionalSpecFns;
use crate::text::{chars_of, push_all, string_of};

verus! {

/// `s` without every trailing `c`.
pub open spec fn trim_end_char(s: Seq<char>, c: char) -> Seq<char>
    decreases s.len(),
{
    if s.len() > 0 && s.last() == c {
        trim_end_char(s.drop_last(), c)
    } else {
        s
    }
}

/// `s` without every trailing repetition of the non-empty `suffix`.
pub open spec fn trim_end_seq(s: Seq<char>, suffix: Seq<char>) -> Seq<char>
    decreases s.len(),
{
    if suffix.len() > 0 && s.len() >= suffix.len() && s.subrange(s.len() - suffix.len(), s.len() as int)
        == suffix {
        trim_end_seq(s.subrange(0, s.len() - suffix.len()), suffix)
    } else {
        s
    }
}

/// What follows the last `/` of `s` (all of `s` if it holds none).
pub open spec fn last_segment(s: Seq<char>) -> Seq<char>
    decreases s.len(),
{
    if s.len() == 0 {
        s
    } else if s.last() == '/' {
        Seq::empty()
    } else {
        last_segment(s.drop_last()).push(s.last())
    }
}

/// The name of a source: its last path segment, without trailing slashes or `.git`.
pub open spec fn repo_name(source: Seq<char>) -> Seq<char> {
    last_segment(trim_end_seq(trim_end_char(source, '/'), ".git"@))
}

/// The lowercase hexadecimal digits.
pub open spec fn hex_alphabet() -> Seq<char> {
    seq!['0', '1', '2', '3', '4', '5', '6', '7', '8', '9', 'a', 'b', 'c', 'd', 'e', 'f']
}

/// `n` in lowercase hexadecimal, without leading zeros.
pub open spec fn hex_of(n: nat) -> Seq<char>
    decreases n,
{
    if n < 16 {
        seq![hex_alphabet()[n as int]]
    } else {
        hex_of(n / 16).push(hex_alphabet()[(n % 16) as int])
    }
}

/// The first eight hexadecimal digits of `h` (all of them if it has fewer).
pub open spec fn hash_tag(h: u64) -> Seq<char> {
    if hex_of(h as nat).len() > 8 {
        hex_of(h as nat).take(8)
    } else {
        hex_of(h as nat)
    }
}

/// The hash of a string: the default hasher fed its bytes, then the byte `0xff`,
/// as `str`'s `Hash` implementation does.
pub open spec fn str_hash(s: &str) -> u64 {
    DefaultHasher::spec_finish(seq![s.spec_bytes(), seq![0xffu8]])
}

/// `a` and `b` joined by one path separator (none after an empty or `/`-ended `a`).
pub open spec fn join(a: Seq<char>, b: Seq<char>) -> Seq<char> {
    if a.len() == 0 || a.last() == '/' {
        a + b
    } else {
        a + seq!['/'] + b
    }
}

/// The directory under a user cache directory that holds this scheduler's data.
pub open spec fn cache_root(base: Seq<char>) -> Seq<char> {
    join(base, "rollcron"@)
}

/// The name of the mirror of `source`: its repository name, a dash and a hash tag.
pub open spec fn cache_dir_name_spec(source: &str) -> Seq<char> {
    repo_name(source@) + seq!['-'] + hash_tag(str_hash(source))
}

/// The last component of a path, or `unknown` where it has none.
pub open spec fn file_name_or_unknown(path: Seq<char>) -> Seq<char> {
    let seg = last_segment(trim_end_char(path, '/'));
    if seg.len() == 0 || seg == "."@ || seg == ".."@ {
        "unknown"@
    } else {
        seg
    }
}

/// The name of a job's working directory: the mirror's name, `@`, the job id.
pub open spec fn job_dir_name_spec(sot_path: Seq<char>, job_id: Seq<char>) -> Seq<char> {
    file_name_or_unknown(sot_path) + seq!['@'] + job_id
}

/// The directory in which a new tree for a job's working directory is built: the
/// job directory's name under a `.staging` directory beside the job directories.
pub open spec fn staging_dir_spec(base: Seq<char>, sot_path: Seq<char>, job_id: Seq<char>) -> Seq<char> {
    join(join(cache_root(base), ".staging"@), job_dir_name_spec(sot_path, job_id))
}

/// The directory to which a job's previous tree is renamed during a swap: the job
/// directory's name under a `.retired` directory beside the job directories.
pub open spec fn retired_dir_spec(base: Seq<char>, sot_path: Seq<char>, job_id: Seq<char>) -> Seq<char> {
    join(join(cache_root(base), ".retired"@), job_dir_name_spec(sot_path, job_id))
}

/// A job's working directory and its staging and set-aside directories, under one
/// cache directory.
pub struct JobDirs {
    pub job_dir: String,
    pub staging_dir: String,
    pub retired_dir: String,
}

proof fn lemma_last_segment_no_slash(s: Seq<char>)
    ensures
        forall|i: int| 0 <= i < last_segment(s).len() ==> #[trigger] last_segment(s)[i] != '/',
    decreases s.len(),
{
    if s.len() > 0 && s.last() != '/' {
        lemma_last_segment_no_slash(s.drop_last());
        let t = last_segment(s.drop_last());
        assert forall|i: int| 0 <= i < last_segment(s).len() implies #[trigger] last_segment(s)[i] != '/' by {
            if i < t.len() {
                assert(last_segment(s)[i] == t[i]);
            }
        }
    }
}

/// A name under a nine-character directory prefix without `@` is no job directory
/// name: those hold an `@` before their first `/`.
proof fn lemma_prefixed_is_no_job_name(p: Seq<char>, n: Seq<char>, sot: Seq<char>, id: Seq<char>)
    requires
        p.len() == 9,
        p[8] == '/',
        forall|i: int| 0 <= i < 8 ==> p[i] != '@',
    ensures
        p + n != job_dir_name_spec(sot, id),
{
    reveal_strlit("unknown");
    let t = p + n;
    let f = file_name_or_unknown(sot);
    let m = job_dir_name_spec(sot, id);
    lemma_last_segment_no_slash(trim_end_char(sot, '/'));
    assert(forall|i: int| 0 <= i < f.len() ==> f[i] != '/');
    assert(m =~= f + seq!['@'] + id);
    if t == m {
        assert(t[8] == '/');
        if f.len() <= 8 {
            assert(m[f.len() as int] == '@');
            assert(t[f.len() as int] == p[f.len() as int]);
        } else {
            assert(m[8] == f[8]);
        }
    }
}

/// Under one cache directory, no job's staging or set-aside directory is any job's
/// working directory, no staging directory is a set-aside directory, and two jobs
/// share a staging or a set-aside directory only when they share a working
/// directory.
pub proof fn lemma_staging_is_private(
    base: Seq<char>,
    sot1: Seq<char>,
    id1: Seq<char>,
    sot2: Seq<char>,
    id2: Seq<char>,
)
    ensures
        staging_dir_spec(base, sot1, id1) != join(cache_root(base), job_dir_name_spec(sot2, id2)),
        retired_dir_spec(base, sot1, id1) != join(cache_root(base), job_dir_name_spec(sot2, id2)),
        staging_dir_spec(base, sot1, id1) != retired_dir_spec(base, sot2, id2),
        staging_dir_spec(base, sot1, id1) == staging_dir_spec(base, sot2, id2) ==> job_dir_name_spec(sot1, id1)
            == job_dir_name_spec(sot2, id2),
        retired_dir_spec(base, sot1, id1) == retired_dir_spec(base, sot2, id2) ==> job_dir_name_spec(sot1, id1)
            == job_dir_name_spec(sot2, id2),
{
    reveal_strlit("rollcron");
    reveal_strlit(".staging");
    reveal_strlit(".retired");
    let r = cache_root(base);
    assert(r.len() > 0 && r.last() == 'n');
    let sp = ".staging"@ + seq!['/'];
    let rp = ".retired"@ + seq!['/'];
    assert(join(r, ".staging"@) =~= r + seq!['/'] + ".staging"@);
    assert(join(r, ".retired"@) =~= r + seq!['/'] + ".retired"@);
    assert(join(r, ".staging"@).last() == 'g');
    assert(join(r, ".retired"@).last() == 'd');
    let n1 = job_dir_name_spec(sot1, id1);
    let n2 = job_dir_name_spec(sot2, id2);
    let k = (r.len() + 1) as int;
    let a = staging_dir_spec(base, sot1, id1);
    let b = retired_dir_spec(base, sot1, id1);
    let jd = join(r, n2);
    let a2 = staging_dir_spec(base, sot2, id2);
    let b2 = retired_dir_spec(base, sot2, id2);
    assert(a =~= r + seq!['/'] + (sp + n1));
    assert(b =~= r + seq!['/'] + (rp + n1));
    assert(a2 =~= r + seq!['/'] + (sp + n2));
    assert(b2 =~= r + seq!['/'] + (rp + n2));
    assert(jd =~= r + seq!['/'] + n2);
    lemma_prefixed_is_no_job_name(sp, n1, sot2, id2);
    lemma_prefixed_is_no_job_name(rp, n1, sot2, id2);
    if a == jd {
        assert(a.subrange(k, a.len() as int) =~= sp + n1);
        assert(jd.subrange(k, jd.len() as int) =~= n2);
    }
    if b == jd {
        assert(b.subrange(k, b.len() as int) =~= rp + n1);
        assert(jd.subrange(k, jd.len() as int) =~= n2);
    }
    if a == b2 {
        assert(a[k + 1] == sp[1]);
        assert(b2[k + 1] == rp[1]);
    }
    if a == a2 {
        assert(a.subrange(k + 9, a.len() as int) =~= n1);
        assert(a2.subrange(k + 9, a2.len() as int) =~= n2);
    }
    if b == b2 {
        assert(b.subrange(k + 9, b.len() as int) =~= n1);
        assert(b2.subrange(k + 9, b2.len() as int) =~= n2);
    }
}

/// The staging directory of job `job_id` under the cache directory `base`.
pub fn staging_dir_in(base: &str, sot_path: &str, job_id: &str) -> (r: String)
    ensures
        r@ == staging_dir_spec(base@, sot_path@, job_id@),
{
    let mut out = chars_of(base);
    join_into(&mut out, &chars_of("rollcron"));
    join_into(&mut out, &chars_of(".staging"));
    join_into(&mut out, &chars_of(job_dir_name(sot_path, job_id).as_str()));
    string_of(&out)
}

/// The hash of a string with the standard library's default hasher; stable for a
/// given build, so the same source always maps to the same mirror.
pub fn hash_str(input: &str) -> (r: u64)
    ensures
        r == str_hash(input),
{
    let mut hasher = DefaultHasher::new();
    hasher.write(input.as_bytes());
    let end: [u8; 1] = [0xffu8];
    hasher.write(&end);
    proof {
        assert(end@ =~= seq![0xffu8]);
        assert(hasher@ =~= seq![input.spec_bytes(), seq![0xffu8]]);
    }
    hasher.finish()
}

fn push_hex(n: u64, out: &mut Vec<char>)
    ensures
        final(out)@ == old(out)@ + hex_of(n as nat),
    decreases n,
{
    let digits: Vec<char> = vec!['0', '1', '2', '3', '4', '5', '6', '7', '8', '9', 'a', 'b', 'c', 'd', 'e', 'f'];
    assert(digits@ =~= hex_alphabet());
    if n < 16 {
        out.push(digits[n as usize]);
        assert(hex_of(n as nat) =~= seq![hex_alphabet()[n as int]]);
    } else {
        push_hex(n / 16, out);
        out.push(digits[(n % 16) as usize]);
        assert(hex_of(n as nat) == hex_of((n / 16) as nat).push(hex_alphabet()[(n % 16) as int]));
    }
}

/// The end of the characters of `s` once every trailing `c` is dropped.
fn trimmed_end(s: &Vec<char>, c: char) -> (end: usize)
    ensures
        end <= s@.len(),
        s@.take(end as int) == trim_end_char(s@, c),
{
    let mut end: usize = s.len();
    assert(s@.take(end as int) =~= s@);
    while end > 0 && s[end - 1] == c
        invariant
            end <= s@.len(),
            trim_end_char(s@.take(end as int), c) == trim_end_char(s@, c),
        decreases end,
    {
        assert(s@.take(end - 1) =~= s@.take(end as int).drop_last());
        end = end - 1;
    }
    end
}

/// The end of `s[..end]` once every trailing `.git` is dropped.
fn trimmed_git_end(s: &Vec<char>, end: usize) -> (r: usize)
    requires
        end <= s@.len(),
    ensures
        r <= end,
        s@.take(r as int) == trim_end_seq(s@.take(end as int), ".git"@),
{
    proof {
        reveal_strlit(".git");
    }
    let mut e: usize = end;
    while e >= 4 && s[e - 4] == '.' && s[e - 3] == 'g' && s[e - 2] == 'i' && s[e - 1] == 't'
        invariant
            e <= end,
            end <= s@.len(),
            trim_end_seq(s@.take(e as int), ".git"@) == trim_end_seq(s@.take(end as int), ".git"@),
        decreases e,
    {
        let ghost t = s@.take(e as int);
        proof {
            reveal_strlit(".git");
        }
        assert(t.subrange(t.len() - 4, t.len() as int) =~= ".git"@);
        assert(t.subrange(0, t.len() - 4) =~= s@.take(e - 4));
        e = e - 4;
    }
    proof {
        let t = s@.take(e as int);
        if e >= 4 && t.subrange(t.len() - 4, t.len() as int) == ".git"@ {
            assert(t.subrange(t.len() - 4, t.len() as int)[0] == s@[e - 4]);
            assert(t.subrange(t.len() - 4, t.len() as int)[1] == s@[e - 3]);
            assert(t.subrange(t.len() - 4, t.len() as int)[2] == s@[e - 2]);
            assert(t.subrange(t.len() - 4, t.len() as int)[3] == s@[e - 1]);
        }
    }
    e
}

/// The start of the last segment of `s[..end]`.
fn segment_start(s: &Vec<char>, end: usize) -> (start: usize)
    requires
        end <= s@.len(),
    ensures
        start <= end,
        s@.subrange(start as int, end as int) == last_segment(s@.take(end as int)),
{
    let mut start: usize = end;
    while start > 0 && s[start - 1] != '/'
        invariant
            start <= end,
            end <= s@.len(),
            last_segment(s@.take(end as int)) == last_segment(s@.take(start as int)) + s@.subrange(
                start as int,
                end as int,
            ),
        decreases start,
    {
        let ghost t = s@.take(start as int);
        assert(t.drop_last() =~= s@.take(start - 1));
        assert(s@.subrange(start - 1, end as int) =~= seq![s@[start - 1]] + s@.subrange(
            start as int,
            end as int,
        ));
        assert(last_segment(t) == last_segment(t.drop_last()).push(t.last()));
        assert(last_segment(t.drop_last()).push(t.last()) + s@.subrange(start as int, end as int)
            =~= last_segment(t.drop_last()) + s@.subrange(start - 1, end as int));
        start = start - 1;
    }
    proof {
        if start > 0 {
            assert(s@.take(start as int).last() == s@[start - 1]);
        }
        assert(last_segment(s@.take(start as int)) =~= Seq::<char>::empty());
        assert(Seq::<char>::empty() + s@.subrange(start as int, end as int) =~= s@.subrange(
            start as int,
            end as int,
        ));
    }
    start
}

fn push_range(out: &mut Vec<char>, s: &Vec<char>, from: usize, to: usize)
    requires
        from <= to <= s@.len(),
    ensures
        final(out)@ == old(out)@ + s@.subrange(from as int, to as int),
{
    let mut i: usize = from;
    while i < to
        invariant
            from <= i <= to,
            to <= s@.len(),
            out@ == old(out)@ + s@.subrange(from as int, i as int),
        decreases to - i,
    {
        out.push(s[i]);
        i = i + 1;
        assert(s@.subrange(from as int, i as int) =~= s@.subrange(from as int, i - 1).push(s@[i - 1]));
    }
}

fn join_into(out: &mut Vec<char>, b: &Vec<char>)
    ensures
        final(out)@ == join(old(out)@, b@),
{
    if out.len() > 0 && out[out.len() - 1] != '/' {
        out.push('/');
    }
    push_all(out, b);
    assert(join(old(out)@, b@) =~= final(out)@);
}

/// The name of the mirror of `source`, from its repository name and hash.
pub fn cache_dir_name(source: &str) -> (r: String)
    ensures
        r@ == cache_dir_name_spec(source),
{
    let s = chars_of(source);
    let e1 = trimmed_end(&s, '/');
    let e2 = trimmed_git_end(&s, e1);
    let st = segment_start(&s, e2);
    let mut out: Vec<char> = Vec::new();
    push_range(&mut out, &s, st, e2);
    out.push('-');
    let mut hex: Vec<char> = Vec::new();
    push_hex(hash_str(source), &mut hex);
    let n: usize = if hex.len() > 8 { 8 } else { hex.len() };
    push_range(&mut out, &hex, 0, n);
    proof {
        assert(s@.take(e2 as int).subrange(0, e2 as int) =~= s@.take(e2 as int));
        assert(hex@.subrange(0, n as int) =~= hash_tag(str_hash(source)));
        assert(out@ =~= cache_dir_name_spec(source));
    }
    string_of(&out)
}

/// The mirror of `source` under the cache directory `base`.
pub fn cache_dir_in(base: &str, source: &str) -> (r: String)
    ensures
        r@ == join(cache_root(base@), cache_dir_name_spec(source)),
{
    let mut out = chars_of(base);
    join_into(&mut out, &chars_of("rollcron"));
    join_into(&mut out, &chars_of(cache_dir_name(source).as_str()));
    string_of(&out)
}

/// The name of the working directory of job `job_id` for the mirror at `sot_path`.
pub fn job_dir_name(sot_path: &str, job_id: &str) -> (r: String)
    ensures
        r@ == job_dir_name_spec(sot_path@, job_id@),
{
    let s = chars_of(sot_path);
    let e = trimmed_end(&s, '/');
    let st = segment_start(&s, e);
    let mut out: Vec<char> = Vec::new();
    push_range(&mut out, &s, st, e);
    proof {
        reveal_strlit(".");
        reveal_strlit("..");
        assert(s@.take(e as int).subrange(0, e as int) =~= s@.take(e as int));
    }
    let seg_len = out.len();
    let dot = seg_len == 1 && out[0] == '.';
    let dotdot = seg_len == 2 && out[0] == '.' && out[1] == '.';
    if seg_len == 0 || dot || dotdot {
        proof {
            if seg_len == 1 && out@ == "."@ {
                assert(out@[0] == "."@[0]);
            }
            if seg_len == 2 && out@ == ".."@ {
                assert(out@[0] == ".."@[0]);
                assert(out@[1] == ".."@[1]);
            }
            if dot {
                assert(out@ =~= "."@);
            }
            if dotdot {
                assert(out@ =~= ".."@);
            }
        }
        out = chars_of("unknown");
    } else {
        proof {
            if out@ == "."@ {
                assert(out@[0] == "."@[0]);
            }
            if out@ == ".."@ {
                assert(out@[0] == ".."@[0]);
                assert(out@[1] == ".."@[1]);
            }
        }
    }
    out.push('@');
    push_all(&mut out, &chars_of(job_id));
    string_of(&out)
}

/// The working directory of job `job_id` under the cache directory `base`.
pub fn job_dir_in(base: &str, sot_path: &str, job_id: &str) -> (r: String)
    ensures
        r@ == join(cache_root(base@), job_dir_name_spec(sot_path@, job_id@)),
{
    let mut out = chars_of(base);
    join_into(&mut out, &chars_of("rollcron"));
    join_into(&mut out, &chars_of(job_dir_name(sot_path, job_id).as_str()));
    string_of(&out)
}

/// Relies on `dirs::cache_dir`: the user's cache directory, which depends on the
/// platform and the environment, as a string when it is valid UTF-8.
#[verifier::external_body]
fn user_cache_dir() -> (r: Option<String>) {
    dirs::cache_dir().and_then(|p| p.to_str().map(|s| s.to_string()))
}

/// The cache directory to use: the user's, or `/tmp` where there is none.
fn cache_base() -> (r: String) {
    match user_cache_dir() {
        Some(b) => b,
        None => String::from_str("/tmp"),
    }
}

/// The mirror of `source` under the user's cache directory.
pub fn get_cache_dir(source: &str) -> (r: String)
    ensures
        exists|base: Seq<char>| r@ == join(cache_root(base), cache_dir_name_spec(source)),
{
    let base = cache_base();
    cache_dir_in(base.as_str(), source)
}

/// The working directory of job `job_id` under the user's cache directory.
pub fn get_job_dir(sot_path: &str, job_id: &str) -> (r: String)
    ensures
        exists|base: Seq<char>| r@ == join(cache_root(base), job_dir_name_spec(sot_path@, job_id@)),
{
    let base = cache_base();
    job_dir_in(base.as_str(), sot_path, job_id)
}

/// The set-aside directory of job `job_id` under the cache directory `base`.
pub fn retired_dir_in(base: &str, sot_path: &str, job_id: &str) -> (r: String)
    ensures
        r@ == retired_dir_spec(base@, sot_path@, job_id@),
{
    let mut out = chars_of(base);
    join_into(&mut out, &chars_of("rollcron"));
    join_into(&mut out, &chars_of(".retired"));
    join_into(&mut out, &chars_of(job_dir_name(sot_path, job_id).as_str()));
    string_of(&out)
}

/// The working, staging and set-aside directories of job `job_id`, all under the
/// user's cache directory.
pub fn get_job_dirs(sot_path: &str, job_id: &str) -> (r: JobDirs)
    ensures
        exists|base: Seq<char>|
            r.job_dir@ == join(#[trigger] cache_root(base), job_dir_name_spec(sot_path@, job_id@))
                && r.staging_dir@ == staging_dir_spec(base, sot_path@, job_id@)
                && r.retired_dir@ == retired_dir_spec(base, sot_path@, job_id@),
{
    let base = cache_base();
    JobDirs {
        job_dir: job_dir_in(base.as_str(), sot_path, job_id),
        staging_dir: staging_dir_in(base.as_str(), sot_path, job_id),
        retired_dir: retired_dir_in(base.as_str(), sot_path, job_id),
    }
}

} // verus!
