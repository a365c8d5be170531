use vstd::prelude::*;
use vstd::string::StrSliceExecFns;
use vstd::string::StringExecFns;
use crate::strutil::push_char;
use crate::strutil::str_eq;

verus! {

// ---------------------------------------------------------------------------
// Splitting a path into components
// ---------------------------------------------------------------------------
/// The views of a sequence of strings.
pub open spec fn strs_view(v: Seq<String>) -> Seq<Seq<char>> {
    v.map_values(|s: String| s@)
}

/// Splits the characters from `i` on at every slash, the piece gathered so
/// far in `cur` and the finished pieces in `acc`.
pub open spec fn split_run(s: Seq<char>, i: int, cur: Seq<char>, acc: Seq<Seq<char>>) -> Seq<
    Seq<char>,
>
    decreases s.len() - i,
    when 0 <= i <= s.len()
{
    if i >= s.len() {
        acc.push(cur)
    } else if s[i] == '/' {
        split_run(s, i + 1, Seq::<char>::empty(), acc.push(cur))
    } else {
        split_run(s, i + 1, cur.push(s[i]), acc)
    }
}

/// The slash-separated components of a path, empty pieces kept.
pub open spec fn split_path(s: Seq<char>) -> Seq<Seq<char>> {
    split_run(s, 0, Seq::<char>::empty(), Seq::<Seq<char>>::empty())
}

/// Splits a path at every slash.
pub fn split_path_exec(s: &str) -> (r: Vec<String>)
    ensures
        strs_view(r@) == split_path(s@),
{
    let len = s.unicode_len();
    let mut out: Vec<String> = Vec::new();
    let mut cur = String::new();
    let mut i: usize = 0;
    proof {
        assert(strs_view(out@) =~= Seq::<Seq<char>>::empty());
    }
    while i < len
        invariant
            i <= len,
            len == s@.len(),
            split_path(s@) == split_run(s@, i as int, cur@, strs_view(out@)),
        decreases len - i,
    {
        let c = s.get_char(i);
        let ghost acc0 = strs_view(out@);
        let ghost cv = cur@;
        if c == '/' {
            out.push(cur);
            cur = String::new();
            proof {
                assert(strs_view(out@) =~= acc0.push(cv));
            }
        } else {
            push_char(&mut cur, c);
        }
        i = i + 1;
    }
    let ghost acc0 = strs_view(out@);
    let ghost cv = cur@;
    out.push(cur);
    proof {
        assert(split_run(s@, len as int, cv, acc0) == acc0.push(cv));
        assert(strs_view(out@) =~= acc0.push(cv));
    }
    out
}

// ---------------------------------------------------------------------------
// Normalization
// ---------------------------------------------------------------------------
/// Folds the components from `j` on into a normalized stack: empty and `.`
/// components are dropped, `..` pops the previous component, anything else
/// is kept.
pub open spec fn norm_fold(comps: Seq<Seq<char>>, j: int, stack: Seq<Seq<char>>) -> Seq<Seq<char>>
    decreases comps.len() - j,
    when 0 <= j <= comps.len()
{
    if j >= comps.len() {
        stack
    } else {
        let c = comps[j];
        if c.len() == 0 || c == "."@ {
            norm_fold(comps, j + 1, stack)
        } else if c == ".."@ {
            norm_fold(
                comps,
                j + 1,
                if stack.len() > 0 {
                    stack.drop_last()
                } else {
                    stack
                },
            )
        } else {
            norm_fold(comps, j + 1, stack.push(c))
        }
    }
}

/// Normalizes a component list.
fn normalize_comps(comps: Vec<String>) -> (r: Vec<String>)
    ensures
        strs_view(r@) == norm_fold(strs_view(comps@), 0, Seq::<Seq<char>>::empty()),
{
    let ghost full = strs_view(comps@);
    let mut stack: Vec<String> = Vec::new();
    let mut j: usize = 0;
    proof {
        assert(strs_view(stack@) =~= Seq::<Seq<char>>::empty());
    }
    while j < comps.len()
        invariant
            j <= comps@.len(),
            full == strs_view(comps@),
            norm_fold(full, 0, Seq::<Seq<char>>::empty()) == norm_fold(
                full,
                j as int,
                strs_view(stack@),
            ),
        decreases comps@.len() - j,
    {
        let c = &comps[j];
        let ghost st0 = strs_view(stack@);
        if c.as_str().unicode_len() == 0 || str_eq(c.as_str(), ".") {
            proof {
                assert(full[j as int].len() == 0 || full[j as int] == "."@);
            }
        } else if str_eq(c.as_str(), "..") {
            if stack.len() > 0 {
                stack.pop();
                proof {
                    assert(strs_view(stack@) =~= st0.drop_last());
                }
            }
        } else {
            stack.push(c.clone());
            proof {
                assert(strs_view(stack@) =~= st0.push(full[j as int]));
            }
        }
        j = j + 1;
    }
    stack
}

// ---------------------------------------------------------------------------
// Joining
// ---------------------------------------------------------------------------
/// The components joined with a slash in front of each.
pub open spec fn catp(comps: Seq<Seq<char>>) -> Seq<char>
    decreases comps.len(),
{
    if comps.len() == 0 {
        Seq::<char>::empty()
    } else {
        catp(comps.drop_last()) + seq!['/'] + comps.last()
    }
}

/// An absolute path from normalized components; no components is the root.
pub open spec fn join_abs(comps: Seq<Seq<char>>) -> Seq<char> {
    if comps.len() == 0 {
        seq!['/']
    } else {
        catp(comps)
    }
}

/// Renders normalized components as an absolute path.
fn join_abs_exec(comps: &Vec<String>) -> (r: String)
    ensures
        r@ == join_abs(strs_view(comps@)),
{
    let ghost full = strs_view(comps@);
    if comps.len() == 0 {
        let mut r = String::new();
        push_char(&mut r, '/');
        proof {
            assert(r@ =~= seq!['/']);
        }
        return r;
    }
    let mut out = String::new();
    let mut i: usize = 0;
    proof {
        assert(full.take(0) =~= Seq::<Seq<char>>::empty());
    }
    while i < comps.len()
        invariant
            i <= comps@.len(),
            full == strs_view(comps@),
            out@ == catp(full.take(i as int)),
        decreases comps@.len() - i,
    {
        push_char(&mut out, '/');
        out.append(comps[i].as_str());
        i = i + 1;
        proof {
            assert(full.take(i as int).drop_last() =~= full.take(i - 1));
            assert(full.take(i as int).last() == full[i - 1]);
        }
    }
    proof {
        assert(full.take(comps@.len() as int) =~= full);
    }
    out
}

/// The components joined with slashes between them, none in front.
pub open spec fn catr(comps: Seq<Seq<char>>) -> Seq<char>
    decreases comps.len(),
{
    if comps.len() == 0 {
        Seq::<char>::empty()
    } else if comps.len() == 1 {
        comps[0]
    } else {
        catr(comps.drop_last()) + seq!['/'] + comps.last()
    }
}

/// Renders components as a relative path.
fn join_rel_exec(comps: &Vec<String>) -> (r: String)
    ensures
        r@ == catr(strs_view(comps@)),
{
    let ghost full = strs_view(comps@);
    let mut out = String::new();
    let mut i: usize = 0;
    proof {
        assert(full.take(0) =~= Seq::<Seq<char>>::empty());
        assert(out@ =~= catr(full.take(0)));
    }
    while i < comps.len()
        invariant
            i <= comps@.len(),
            full == strs_view(comps@),
            out@ == catr(full.take(i as int)),
        decreases comps@.len() - i,
    {
        if i > 0 {
            push_char(&mut out, '/');
        }
        out.append(comps[i].as_str());
        i = i + 1;
        proof {
            assert(full.take(i as int).drop_last() =~= full.take(i - 1));
            assert(full.take(i as int).last() == full[i - 1]);
            if i == 1 {
                assert(full.take(1int)[0] == full[0]);
            }
        }
    }
    proof {
        assert(full.take(comps@.len() as int) =~= full);
    }
    out
}

// ---------------------------------------------------------------------------
// Resolution
// ---------------------------------------------------------------------------
/// Where a change of directory leads: an absolute argument stands alone, a
/// relative one is joined to the working directory; the result is the
/// normalized absolute path.
pub open spec fn resolve_spec(cwd: Seq<char>, arg: Seq<char>) -> Seq<char> {
    let full = if arg.len() > 0 && arg[0] == '/' {
        arg
    } else {
        cwd + seq!['/'] + arg
    };
    join_abs(norm_fold(split_path(full), 0, Seq::<Seq<char>>::empty()))
}

/// Resolves a path against the working directory and normalizes it.
pub fn resolve_path(cwd: &str, arg: &str) -> (r: String)
    ensures
        r@ == resolve_spec(cwd@, arg@),
{
    let alen = arg.unicode_len();
    let full: String = if alen > 0 && arg.get_char(0) == '/' {
        arg.to_owned()
    } else {
        let mut f = cwd.to_owned();
        push_char(&mut f, '/');
        f.append(arg);
        proof {
            assert(f@ =~= cwd@ + seq!['/'] + arg@);
        }
        f
    };
    let comps = split_path_exec(full.as_str());
    let norm = normalize_comps(comps);
    join_abs_exec(&norm)
}

// ---------------------------------------------------------------------------
// Tilde expansion
// ---------------------------------------------------------------------------
/// What a leading tilde expands to: a path that is exactly `~`, or starts
/// with `~/`, has the tilde replaced by the home directory; anything else is
/// unchanged.
pub open spec fn tilde_spec(s: Seq<char>, home: Seq<char>) -> Seq<char> {
    if s.len() >= 1 && s[0] == '~' && (s.len() == 1 || s[1] == '/') {
        home + s.skip(1)
    } else {
        s
    }
}

/// Expands a leading tilde to the home directory.
pub fn tilde_expand(s: &str, home: &str) -> (r: String)
    ensures
        r@ == tilde_spec(s@, home@),
{
    let len = s.unicode_len();
    if len >= 1 && s.get_char(0) == '~' && (len == 1 || s.get_char(1) == '/') {
        let rest = s.substring_char(1, len);
        let r = home.to_owned().concat(rest);
        proof {
            assert(rest@ =~= s@.skip(1));
        }
        r
    } else {
        s.to_owned()
    }
}

// ---------------------------------------------------------------------------
// Glob patterns
// ---------------------------------------------------------------------------
/// Whether a component holds a globbing character.
pub open spec fn is_glob_comp(c: Seq<char>) -> bool {
    exists|i: int| 0 <= i < c.len() && (c[i] == '*' || c[i] == '{' || c[i] == '}')
}

/// Whether a component holds a globbing character, decided at run time.
fn has_glob_char(c: &str) -> (r: bool)
    ensures
        r == is_glob_comp(c@),
{
    let len = c.unicode_len();
    let mut i: usize = 0;
    while i < len
        invariant
            i <= len,
            len == c@.len(),
            forall|j: int| 0 <= j < i ==> !(c@[j] == '*' || c@[j] == '{' || c@[j] == '}'),
        decreases len - i,
    {
        let ch = c.get_char(i);
        if ch == '*' || ch == '{' || ch == '}' {
            return true;
        }
        i = i + 1;
    }
    false
}

/// The meaningful components of a path: empty and `.` pieces dropped.
pub open spec fn clean_comps(comps: Seq<Seq<char>>) -> Seq<Seq<char>>
    decreases comps.len(),
{
    if comps.len() == 0 {
        Seq::<Seq<char>>::empty()
    } else if comps.last().len() == 0 || comps.last() == "."@ {
        clean_comps(comps.drop_last())
    } else {
        clean_comps(comps.drop_last()).push(comps.last())
    }
}

/// The index of the first globbing component, or the length if none globs.
pub open spec fn first_glob(comps: Seq<Seq<char>>, j: int) -> int
    decreases comps.len() - j,
    when 0 <= j <= comps.len()
{
    if j >= comps.len() {
        j
    } else if is_glob_comp(comps[j]) {
        j
    } else {
        first_glob(comps, j + 1)
    }
}

/// How a glob pattern splits into a base directory and a glob suffix: an
/// absolute pattern is cut at its first globbing component, so the walk can
/// start from the longest literal prefix; a relative pattern walks from the
/// current directory.
pub open spec fn glob_split_spec(pattern: Seq<char>) -> (Seq<char>, Seq<char>) {
    if pattern.len() > 0 && pattern[0] == '/' {
        let comps = clean_comps(split_path(pattern));
        let g = first_glob(comps, 0);
        (join_abs(comps.take(g)), catr(comps.skip(g)))
    } else {
        (seq!['.'], pattern)
    }
}

/// Splits a glob pattern into the directory the walk starts from and the
/// pattern the walk matches against.
pub fn glob_split(pattern: &str) -> (r: (String, String))
    ensures
        r.0@ == glob_split_spec(pattern@).0,
        r.1@ == glob_split_spec(pattern@).1,
{
    let plen = pattern.unicode_len();
    if !(plen > 0 && pattern.get_char(0) == '/') {
        let mut dot = String::new();
        push_char(&mut dot, '.');
        proof {
            assert(dot@ =~= seq!['.']);
        }
        return (dot, pattern.to_owned());
    }
    let raw = split_path_exec(pattern);
    let ghost rawv = strs_view(raw@);
    // keep the meaningful components
    let mut comps: Vec<String> = Vec::new();
    let mut i: usize = 0;
    proof {
        assert(rawv.take(0) =~= Seq::<Seq<char>>::empty());
        assert(strs_view(comps@) =~= clean_comps(rawv.take(0)));
    }
    while i < raw.len()
        invariant
            i <= raw@.len(),
            rawv == strs_view(raw@),
            strs_view(comps@) == clean_comps(rawv.take(i as int)),
        decreases raw@.len() - i,
    {
        let ghost st0 = strs_view(comps@);
        let c = &raw[i];
        if !(c.as_str().unicode_len() == 0 || str_eq(c.as_str(), ".")) {
            comps.push(c.clone());
            proof {
                assert(strs_view(comps@) =~= st0.push(rawv[i as int]));
            }
        }
        i = i + 1;
        proof {
            assert(rawv.take(i as int).drop_last() =~= rawv.take(i - 1));
            assert(rawv.take(i as int).last() == rawv[i - 1]);
        }
    }
    proof {
        assert(rawv.take(raw@.len() as int) =~= rawv);
    }
    // find the first globbing component
    let mut g: usize = 0;
    while g < comps.len() && !has_glob_char(comps[g].as_str())
        invariant
            g <= comps@.len(),
            strs_view(comps@) == clean_comps(rawv),
            first_glob(strs_view(comps@), 0) == first_glob(strs_view(comps@), g as int),
        decreases comps@.len() - g,
    {
        g = g + 1;
    }
    proof {
        assert(first_glob(strs_view(comps@), g as int) == g);
    }
    // split there
    let mut base: Vec<String> = Vec::new();
    let mut k: usize = 0;
    while k < g
        invariant
            k <= g <= comps@.len(),
            base@.len() == k,
            forall|m: int| 0 <= m < k ==> #[trigger] base@[m]@ == comps@[m]@,
        decreases g - k,
    {
        base.push(comps[k].clone());
        k = k + 1;
    }
    let mut rest: Vec<String> = Vec::new();
    let mut k2: usize = g;
    while k2 < comps.len()
        invariant
            g <= k2 <= comps@.len(),
            rest@.len() == k2 - g,
            forall|m: int| 0 <= m < rest@.len() ==> #[trigger] rest@[m]@ == comps@[g + m]@,
        decreases comps@.len() - k2,
    {
        rest.push(comps[k2].clone());
        k2 = k2 + 1;
    }
    proof {
        assert(strs_view(base@) =~= strs_view(comps@).take(g as int));
        assert(strs_view(rest@) =~= strs_view(comps@).skip(g as int));
    }
    let b = join_abs_exec(&base);
    let p = join_rel_exec(&rest);
    (b, p)
}

} // verus!
