//! Path text utilities: separator normalisation, the POSIX-mount rewrite of
//! drive-letter paths, path resolution against a base directory, and the
//! per-platform rewrite of path-valued environment entries.
use vstd::prelude::*;
use vstd::string::*;

use crate::ordmap::OrdMap;
use crate::strutil::{chars_to_string, join_seq, join_strings, str_eq, str_to_chars};

verus! {

/// Every backslash replaced by a forward slash.
pub open spec fn to_unix_spec(s: Seq<char>) -> Seq<char> {
    Seq::new(s.len(), |i: int| if s[i] == '\\' { '/' } else { s[i] })
}

/// Every forward slash replaced by a backslash.
pub open spec fn to_windows_spec(s: Seq<char>) -> Seq<char> {
    Seq::new(s.len(), |i: int| if s[i] == '/' { '\\' } else { s[i] })
}

/// Replaces every backslash in `path` with a forward slash.
pub fn path_to_unix(path: &str) -> (r: String)
    ensures
        r@ == to_unix_spec(path@),
{
    let cs = str_to_chars(path);
    let mut out: Vec<char> = Vec::new();
    let mut i: usize = 0;
    while i < cs.len()
        invariant
            i <= cs@.len(),
            cs@ == path@,
            out@.len() == i,
            forall|j: int| 0 <= j < i ==> out@[j] == (if cs@[j] == '\\' { '/' } else { cs@[j] }),
        decreases cs.len() - i,
    {
        if cs[i] == '\\' {
            out.push('/');
        } else {
            out.push(cs[i]);
        }
        i = i + 1;
    }
    proof {
        assert(out@ =~= to_unix_spec(path@));
    }
    chars_to_string(&out)
}

/// Replaces every forward slash in `path` with a backslash.
pub fn path_to_windows(path: &str) -> (r: String)
    ensures
        r@ == to_windows_spec(path@),
{
    let cs = str_to_chars(path);
    let mut out: Vec<char> = Vec::new();
    let mut i: usize = 0;
    while i < cs.len()
        invariant
            i <= cs@.len(),
            cs@ == path@,
            out@.len() == i,
            forall|j: int| 0 <= j < i ==> out@[j] == (if cs@[j] == '/' { '\\' } else { cs@[j] }),
        decreases cs.len() - i,
    {
        if cs[i] == '/' {
            out.push('\\');
        } else {
            out.push(cs[i]);
        }
        i = i + 1;
    }
    proof {
        assert(out@ =~= to_windows_spec(path@));
    }
    chars_to_string(&out)
}

/// An upper-case ASCII letter mapped to lower case; other characters kept.
pub open spec fn lower_char(c: char) -> char {
    if 'A' as u32 <= c as u32 && c as u32 <= 'Z' as u32 {
        (((c as u32) + 32) as u8) as char
    } else {
        c
    }
}

pub open spec fn lower_spec(s: Seq<char>) -> Seq<char> {
    Seq::new(s.len(), |i: int| lower_char(s[i]))
}

fn lower_char_x(c: char) -> (r: char)
    ensures
        r == lower_char(c),
{
    let u = c as u32;
    if 'A' as u32 <= u && u <= 'Z' as u32 {
        ((u + 32) as u8) as char
    } else {
        c
    }
}

/// Index of the first `:\` separator at or after `i`, or `s.len()`.
pub open spec fn sep_pos(s: Seq<char>, i: int) -> int
    decreases s.len() - i when 0 <= i <= s.len()
{
    if i + 1 >= s.len() {
        s.len() as int
    } else if s[i] == ':' && s[i + 1] == '\\' {
        i
    } else {
        sep_pos(s, i + 1)
    }
}

pub proof fn lemma_sep_pos_is(s: Seq<char>, i: int, k: int)
    requires
        0 <= i <= k <= s.len(),
        forall|j: int| i <= j < k && j + 1 < s.len() ==> !(#[trigger] s[j] == ':' && s[j + 1] == '\\'),
        k < s.len() ==> k + 1 < s.len() && s[k] == ':' && s[k + 1] == '\\',
    ensures
        sep_pos(s, i) == k,
    decreases k - i,
{
    if i < k {
        lemma_sep_pos_is(s, i + 1, k);
    }
}

/// The POSIX-mount form of a drive-letter path: `C:\a\b` becomes `/mnt/c/a/b`;
/// a path without a `:\` separator is returned unchanged.
pub open spec fn wsl_spec(s: Seq<char>) -> Seq<char> {
    let p = sep_pos(s, 0);
    if p == s.len() {
        s
    } else {
        "/mnt/"@ + lower_spec(s.subrange(0, p)) + "/"@ + to_unix_spec(
            s.subrange(p + 2, sep_pos(s, p + 2)),
        )
    }
}

/// Rewrites a drive-letter path into its POSIX-mount form.
pub fn wsl_path(path: &str) -> (r: String)
    ensures
        r@ == wsl_spec(path@),
{
    let cs = str_to_chars(path);
    let n = cs.len();
    let mut p: usize = 0;
    while n >= 1 && p < n - 1 && !(cs[p] == ':' && cs[p + 1] == '\\')
        invariant
            p <= n,
            n == cs@.len(),
            cs@ == path@,
            forall|j: int| 0 <= j < p && j + 1 < n ==> !(#[trigger] cs@[j] == ':' && cs@[j + 1] == '\\'),
        decreases n - p,
    {
        p = p + 1;
    }
    if n == 0 || p >= n - 1 {
        proof {
            lemma_sep_pos_is(cs@, 0, n as int);
        }
        let mut r = String::new();
        r.append(path);
        return r;
    }
    proof {
        lemma_sep_pos_is(cs@, 0, p as int);
    }
    // find the end of the region after the separator
    let mut q: usize = p + 2;
    while q < n - 1 && !(cs[q] == ':' && cs[q + 1] == '\\')
        invariant
            p + 2 <= q <= n,
            n == cs@.len(),
            forall|j: int| p + 2 <= j < q && j + 1 < n ==> !(#[trigger] cs@[j] == ':' && cs@[j + 1] == '\\'),
        decreases n - q,
    {
        q = q + 1;
    }
    let rest_end = if q >= n - 1 {
        n
    } else {
        q
    };
    proof {
        lemma_sep_pos_is(cs@, p + 2, rest_end as int);
    }
    // lower-cased drive part
    let mut drive: Vec<char> = Vec::new();
    let mut i: usize = 0;
    while i < p
        invariant
            i <= p,
            p < n,
            n == cs@.len(),
            drive@.len() == i,
            forall|j: int| 0 <= j < i ==> drive@[j] == lower_char(cs@[j]),
        decreases p - i,
    {
        drive.push(lower_char_x(cs[i]));
        i = i + 1;
    }
    proof {
        assert(drive@ =~= lower_spec(cs@.subrange(0, p as int)));
    }
    // remainder with backslashes turned into slashes
    let mut rest: Vec<char> = Vec::new();
    let mut j: usize = p + 2;
    while j < rest_end
        invariant
            p + 2 <= j <= rest_end <= n,
            n == cs@.len(),
            rest@.len() == j - (p + 2),
            forall|jj: int|
                0 <= jj < j - (p + 2) ==> rest@[jj] == (if cs@[p + 2 + jj] == '\\' {
                    '/'
                } else {
                    cs@[p + 2 + jj]
                }),
        decreases rest_end - j,
    {
        if cs[j] == '\\' {
            rest.push('/');
        } else {
            rest.push(cs[j]);
        }
        j = j + 1;
    }
    proof {
        assert(rest@ =~= to_unix_spec(cs@.subrange(p + 2, rest_end as int)));
    }
    let mut r = String::from_str("/mnt/");
    let drive_s = chars_to_string(&drive);
    r.append(drive_s.as_str());
    r.append("/");
    let rest_s = chars_to_string(&rest);
    r.append(rest_s.as_str());
    proof {
        assert(r@ =~= wsl_spec(path@));
    }
    r
}

/// What `resolve_path` returns: an absolute path (leading `/`) stands as it
/// is; a relative one is joined onto `relative_to` and normalised to forward
/// slashes.
pub open spec fn resolve_path_spec(p: Seq<char>, rel: Seq<char>) -> Seq<char> {
    if p.len() > 0 && p[0] == '/' {
        p
    } else if rel.len() == 0 {
        to_unix_spec(p)
    } else if rel[rel.len() - 1] == '/' {
        to_unix_spec(rel + p)
    } else {
        to_unix_spec(rel + "/"@ + p)
    }
}

/// Resolves a path against a base directory: an absolute path is kept, a
/// relative one is joined below `relative_to`, with separators normalised.
pub fn resolve_path(absolute_or_relative_path: &str, relative_to: &str) -> (r: String)
    ensures
        r@ == resolve_path_spec(absolute_or_relative_path@, relative_to@),
{
    let p = absolute_or_relative_path;
    let pn = p.unicode_len();
    if pn > 0 && p.get_char(0) == '/' {
        let mut r = String::new();
        r.append(p);
        return r;
    }
    let rn = relative_to.unicode_len();
    if rn == 0 {
        return path_to_unix(p);
    }
    let mut joined = String::new();
    joined.append(relative_to);
    if relative_to.get_char(rn - 1) != '/' {
        joined.append("/");
    }
    joined.append(p);
    path_to_unix(joined.as_str())
}

/// One path in its three spellings: as given, with forward slashes, and in
/// POSIX-mount form.
#[derive(Debug)]
pub struct SystemPath {
    pub original: String,
    pub normal: String,
    pub universal: String,
}

impl SystemPath {
    pub fn new(str_like: &str) -> (r: SystemPath)
        ensures
            r.original@ == str_like@,
            r.normal@ == to_unix_spec(str_like@),
            r.universal@ == wsl_spec(str_like@),
    {
        let universal = wsl_path(str_like);
        let normal = path_to_unix(str_like);
        SystemPath { normal, original: String::from_str(str_like), universal }
    }
}

/// The environment keys whose values are paths and get the platform rewrite.
pub open spec fn is_path_key(k: Seq<char>) -> bool {
    ||| k == "WORKSPACE_PATH"@
    ||| k == "TPL_PATH"@
    ||| k == "PACKAGES_ROOT"@
    ||| k == "HOME_PATH"@
    ||| k == "SVC_PATH"@
}

fn is_path_key_x(k: &str) -> (r: bool)
    ensures
        r == is_path_key(k@),
{
    str_eq(k, "WORKSPACE_PATH") || str_eq(k, "TPL_PATH") || str_eq(k, "PACKAGES_ROOT") || str_eq(
        k,
        "HOME_PATH",
    ) || str_eq(k, "SVC_PATH")
}

/// Rewrites the path-valued entries of an environment into POSIX-mount form
/// when `transform` says the host platform needs it; other entries are kept.
pub fn env_transform_paths(env: &OrdMap<String>, transform: bool) -> (r: OrdMap<String>)
    requires
        env.wf(),
    ensures
        r.wf(),
        r.key_seq() == env.key_seq(),
        r.val_seq().len() == env.val_seq().len(),
        forall|i: int|
            0 <= i < r.val_seq().len() ==> r.val_seq()[i]@ == (if transform && is_path_key(
                env.key_seq()[i],
            ) {
                wsl_spec(to_windows_spec(env.val_seq()[i]@))
            } else {
                env.val_seq()[i]@
            }),
{
    let mut r: OrdMap<String> = OrdMap::new();
    let n = env.len();
    let mut i: usize = 0;
    while i < n
        invariant
            env.wf(),
            r.wf(),
            i <= n,
            n == env.key_seq().len(),
            r.key_seq() =~= env.key_seq().subrange(0, i as int),
            r.val_seq().len() == i,
            forall|j: int|
                0 <= j < i ==> r.val_seq()[j]@ == (if transform && is_path_key(env.key_seq()[j]) {
                    wsl_spec(to_windows_spec(env.val_seq()[j]@))
                } else {
                    env.val_seq()[j]@
                }),
        decreases n - i,
    {
        let k = env.key_at(i).clone();
        let v = if transform && is_path_key_x(k.as_str()) {
            let win = path_to_windows(env.val_at(i).as_str());
            wsl_path(win.as_str())
        } else {
            env.val_at(i).clone()
        };
        proof {
            assert(!r.key_seq().contains(k@)) by {
                if r.key_seq().contains(k@) {
                    let j = choose|j: int| 0 <= j < r.key_seq().len() && r.key_seq()[j] == k@;
                    assert(r.key_seq()[j] != k@);
                }
            }
        }
        r.insert(k, v);
        proof {
            assert(r.key_seq() =~= env.key_seq().subrange(0, i + 1));
        }
        i = i + 1;
    }
    proof {
        assert(r.key_seq() =~= env.key_seq());
    }
    r
}

/// One line of the generated hook script.
pub open spec fn hook_line(bin: Seq<char>, script: Seq<char>) -> Seq<char> {
    bin + " --mode=hook --no-tty "@ + script
}

/// All lines of the generated hook script: a fixed shell header, then one
/// invocation line per hook script.
pub open spec fn hook_lines(scripts: Seq<Seq<char>>, bin: Seq<char>) -> Seq<Seq<char>> {
    seq![
        "#!/bin/bash"@,
        "set -e"@,
        "printf \"\\x1b[0;34m%s\\x1b[39;49;00m\\n\" \"Run hook in Uniform CLI\""@,
    ] + scripts.map_values(|s: Seq<char>| hook_line(bin, s))
}

/// Renders the hook script: a bash header, then one engine invocation per
/// hook, joined by newlines.
pub fn generate_hook_script(scripts: &Vec<String>, uniform_binary: &str) -> (r: String)
    ensures
        r@ == join_seq(hook_lines(scripts@.map_values(|s: String| s@), uniform_binary@), "\n"@),
{
    let ghost model = hook_lines(scripts@.map_values(|s: String| s@), uniform_binary@);
    let mut lines: Vec<String> = Vec::new();
    lines.push(String::from_str("#!/bin/bash"));
    lines.push(String::from_str("set -e"));
    lines.push(
        String::from_str("printf \"\\x1b[0;34m%s\\x1b[39;49;00m\\n\" \"Run hook in Uniform CLI\""),
    );
    let mut i: usize = 0;
    while i < scripts.len()
        invariant
            i <= scripts@.len(),
            model == hook_lines(scripts@.map_values(|s: String| s@), uniform_binary@),
            model.len() == 3 + scripts@.len(),
            lines@.len() == 3 + i,
            forall|j: int| 0 <= j < 3 + i ==> lines@[j]@ == model[j],
        decreases scripts.len() - i,
    {
        let mut line = String::from_str(uniform_binary);
        line.append(" --mode=hook --no-tty ");
        line.append(scripts[i].as_str());
        lines.push(line);
        i = i + 1;
    }
    let r = join_strings(&lines, "\n");
    proof {
        assert(lines@.map_values(|s: String| s@) =~= model);
    }
    r
}

} // verus!
