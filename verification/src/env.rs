//! `${NAME}` references in strings and their substitution from an environment.
use vstd::prelude::*;
use crate::error::ClaudioError;
use crate::text::chars_of;

verus! {

/// A snapshot of process environment variables, in the order they were read.
pub struct EnvVars {
    pub vars: Vec<(String, String)>,
}

impl View for EnvVars {
    type V = Seq<(Seq<char>, Seq<char>)>;

    open spec fn view(&self) -> Seq<(Seq<char>, Seq<char>)> {
        self.vars@.map_values(|p: (String, String)| (p.0@, p.1@))
    }
}

/// The value of `name` in an environment: the first binding of that name.
pub open spec fn env_lookup(vars: Seq<(Seq<char>, Seq<char>)>, name: Seq<char>) -> Option<Seq<char>>
    decreases vars.len(),
{
    if vars.len() == 0 {
        None
    } else if vars[0].0 == name {
        Some(vars[0].1)
    } else {
        env_lookup(vars.drop_first(), name)
    }
}

/// First character of a variable name: `[A-Z_]`.
pub open spec fn is_var_start_char(c: char) -> bool {
    ('A' <= c && c <= 'Z') || c == '_'
}

/// Later characters of a variable name: `[A-Z0-9_]`.
pub open spec fn is_var_char(c: char) -> bool {
    ('A' <= c && c <= 'Z') || ('0' <= c && c <= '9') || c == '_'
}

/// Length of the run of name characters that starts at `j`.
pub open spec fn name_run_len(s: Seq<char>, j: int) -> nat
    decreases s.len() - j,
{
    if 0 <= j < s.len() && is_var_char(s[j]) {
        1 + name_run_len(s, j + 1)
    } else {
        0
    }
}

/// Where a `${NAME}` reference that starts at `i` ends (one past its `}`), if one starts there.
pub open spec fn ref_end_at(s: Seq<char>, i: int) -> Option<int> {
    if 0 <= i && i + 2 < s.len() && s[i] == '$' && s[i + 1] == '{' && is_var_start_char(s[i + 2]) {
        let close = i + 3 + name_run_len(s, i + 3);
        if close < s.len() && s[close] == '}' {
            Some(close + 1)
        } else {
            None
        }
    } else {
        None
    }
}

/// The names referenced from position `i` on, scanning left to right; a reference
/// that is found is skipped as a whole before the scan goes on.
pub open spec fn var_refs_from(s: Seq<char>, i: int) -> Seq<Seq<char>>
    decreases s.len() - i,
{
    if i < 0 || i >= s.len() {
        seq![]
    } else {
        match ref_end_at(s, i) {
            Some(e) => seq![s.subrange(i + 2, e - 1)] + var_refs_from(s, e),
            None => var_refs_from(s, i + 1),
        }
    }
}

/// The names referenced in `s`, in order.
pub open spec fn var_refs(s: Seq<char>) -> Seq<Seq<char>> {
    var_refs_from(s, 0)
}

/// `s` from position `i` on with every reference replaced by its value, or the
/// first referenced name that has no value.
pub open spec fn substitute_from(
    s: Seq<char>,
    i: int,
    env: Seq<(Seq<char>, Seq<char>)>,
) -> Result<Seq<char>, Seq<char>>
    decreases s.len() - i,
{
    if i < 0 || i >= s.len() {
        Ok(seq![])
    } else {
        match ref_end_at(s, i) {
            Some(e) => {
                let name = s.subrange(i + 2, e - 1);
                match env_lookup(env, name) {
                    None => Err(name),
                    Some(v) => match substitute_from(s, e, env) {
                        Ok(rest) => Ok(v + rest),
                        Err(n) => Err(n),
                    },
                }
            },
            None => match substitute_from(s, i + 1, env) {
                Ok(rest) => Ok(seq![s[i]] + rest),
                Err(n) => Err(n),
            },
        }
    }
}

/// `s` with every reference replaced by its value in `env`, or the first missing name.
pub open spec fn substitute(s: Seq<char>, env: Seq<(Seq<char>, Seq<char>)>) -> Result<Seq<char>, Seq<char>> {
    substitute_from(s, 0, env)
}

fn is_var_start(c: char) -> (b: bool)
    ensures
        b == is_var_start_char(c),
{
    ('A' <= c && c <= 'Z') || c == '_'
}

fn is_var(c: char) -> (b: bool)
    ensures
        b == is_var_char(c),
{
    ('A' <= c && c <= 'Z') || ('0' <= c && c <= '9') || c == '_'
}

/// Executable form of `ref_end_at`.
fn ref_end(cs: &Vec<char>, i: usize) -> (r: Option<usize>)
    requires
        i < cs@.len(),
    ensures
        match r {
            Some(e) => ref_end_at(cs@, i as int) == Some(e as int) && i + 4 <= e <= cs@.len(),
            None => ref_end_at(cs@, i as int) is None,
        },
{
    let n = cs.len();
    if n >= 3 && i < n - 2 && cs[i] == '$' && cs[i + 1] == '{' && is_var_start(cs[i + 2]) {
        let mut j = i + 3;
        while j < n && is_var(cs[j])
            invariant
                i + 3 <= j <= n,
                n == cs@.len(),
                i + 3 + name_run_len(cs@, i + 3 as int) == j + name_run_len(cs@, j as int),
            decreases n - j,
        {
            j = j + 1;
        }
        if j < n && cs[j] == '}' {
            Some(j + 1)
        } else {
            None
        }
    } else {
        None
    }
}

/// The message given when a referenced environment variable is not set.
pub fn missing_env_var_message(var: &str) -> (msg: String)
    ensures
        msg@ == "Environment variable '"@ + var@ + "' is not set.\n\nSet it with:\n  export "@ + var@
            + "=your_value"@,
{
    let mut msg = String::new();
    msg.push_str("Environment variable '");
    msg.push_str(var);
    msg.push_str("' is not set.\n\nSet it with:\n  export ");
    msg.push_str(var);
    msg.push_str("=your_value");
    msg
}

/// Extract the `${VAR_NAME}` references of a string, in order.
pub fn extract_variable_references(value: &str) -> (refs: Vec<String>)
    ensures
        refs@.map_values(|r: String| r@) == var_refs(value@),
{
    let cs = chars_of(value);
    let n = cs.len();
    let mut refs: Vec<String> = Vec::new();
    let mut i: usize = 0;
    while i < n
        invariant
            n == cs@.len(),
            cs@ == value@,
            i <= n,
            refs@.map_values(|r: String| r@) + var_refs_from(cs@, i as int) == var_refs(cs@),
        decreases n - i,
    {
        match ref_end(&cs, i) {
            Some(e) => {
                let name = substring(&cs, i + 2, e - 1);
                let ghost old_refs = refs@;
                refs.push(name);
                assert(refs@.map_values(|r: String| r@) =~= old_refs.map_values(|r: String| r@).push(
                    cs@.subrange(i + 2, e - 1),
                ));
                assert(refs@.map_values(|r: String| r@) + var_refs_from(cs@, e as int)
                    =~= old_refs.map_values(|r: String| r@) + var_refs_from(cs@, i as int));
                i = e;
            },
            None => {
                i = i + 1;
            },
        }
    }
    assert(refs@.map_values(|r: String| r@) =~= var_refs(cs@));
    refs
}

/// The string made of `cs[from..to]`.
fn substring(cs: &Vec<char>, from: usize, to: usize) -> (s: String)
    requires
        from <= to <= cs@.len(),
    ensures
        s@ == cs@.subrange(from as int, to as int),
{
    let mut s = String::new();
    let mut k = from;
    while k < to
        invariant
            from <= k <= to,
            to <= cs@.len(),
            s@ == cs@.subrange(from as int, k as int),
        decreases to - k,
    {
        s.push(cs[k]);
        assert(cs@.subrange(from as int, k as int).push(cs@[k as int]) =~= cs@.subrange(
            from as int,
            k + 1,
        ));
        k = k + 1;
    }
    s
}


/// Looking a name up in an environment skips over leading bindings of other names.
proof fn lemma_env_lookup_skip(vars: Seq<(Seq<char>, Seq<char>)>, name: Seq<char>, i: int)
    requires
        0 <= i <= vars.len(),
        forall|j: int| 0 <= j < i ==> vars[j].0 != name,
    ensures
        env_lookup(vars, name) == env_lookup(vars.skip(i), name),
    decreases i,
{
    if i > 0 {
        lemma_env_lookup_skip(vars.drop_first(), name, i - 1);
        assert(vars.drop_first().skip(i - 1) =~= vars.skip(i));
    } else {
        assert(vars.skip(0) =~= vars);
    }
}

/// The value of `name` in `env`, or its index, if bound.
pub(crate) fn find_env_var(env: &EnvVars, name: &String) -> (r: Option<usize>)
    ensures
        match r {
            Some(i) => i < env@.len() && env_lookup(env@, name@) == Some(env@[i as int].1),
            None => env_lookup(env@, name@) is None,
        },
{
    let n = env.vars.len();
    for i in 0..n
        invariant
            n == env.vars@.len(),
            env@.len() == n,
            forall|j: int| 0 <= j < i ==> env@[j].0 != name@,
    {
        if env.vars[i].0 == *name {
            proof {
                lemma_env_lookup_skip(env@, name@, i as int);
                assert(env@.skip(i as int)[0] == env@[i as int]);
            }
            return Some(i);
        }
    }
    proof {
        lemma_env_lookup_skip(env@, name@, n as int);
    }
    None
}

/// Read a variable from the environment, with the standard message if it is missing.
pub fn get_required_env_var(var: &str, env: &EnvVars) -> (r: Result<String, ClaudioError>)
    ensures
        match env_lookup(env@, var@) {
            Some(v) => r matches Ok(s) && s@ == v,
            None => r matches Err(ClaudioError::MissingEnvVar(n)) && n@ == var@,
        },
{
    let name = var.to_string();
    match find_env_var(env, &name) {
        Some(i) => Ok(env.vars[i].1.clone()),
        None => Err(ClaudioError::MissingEnvVar(name)),
    }
}

/// Substitute the `${VAR}` references of a string from the environment.
///
/// Fails with the first referenced variable that is not set.
pub fn substitute_env_vars(value: &str, env: &EnvVars) -> (r: Result<String, ClaudioError>)
    ensures
        match substitute(value@, env@) {
            Ok(s) => r matches Ok(out) && out@ == s,
            Err(n) => r matches Err(ClaudioError::MissingEnvVar(m)) && m@ == n,
        },
{
    let cs = chars_of(value);
    let n = cs.len();
    let mut out = String::new();
    let mut i: usize = 0;
    while i < n
        invariant
            n == cs@.len(),
            cs@ == value@,
            i <= n,
            substitute(cs@, env@) == match substitute_from(cs@, i as int, env@) {
                Ok(rest) => Ok(out@ + rest),
                Err(m) => Err(m),
            },
        decreases n - i,
    {
        match ref_end(&cs, i) {
            Some(e) => {
                let name = substring(&cs, i + 2, e - 1);
                match find_env_var(env, &name) {
                    None => {
                        return Err(ClaudioError::MissingEnvVar(name));
                    },
                    Some(k) => {
                        let ghost before = out@;
                        out.push_str(env.vars[k].1.as_str());
                        proof {
                            match substitute_from(cs@, e as int, env@) {
                                Ok(rest) => {
                                    assert(out@ + rest =~= before + (env@[k as int].1 + rest));
                                },
                                Err(_) => {},
                            }
                        }
                        i = e;
                    },
                }
            },
            None => {
                let ghost before = out@;
                out.push(cs[i]);
                proof {
                    match substitute_from(cs@, i + 1, env@) {
                        Ok(rest) => {
                            assert(out@ + rest =~= before + (seq![cs@[i as int]] + rest));
                        },
                        Err(_) => {},
                    }
                }
                i = i + 1;
            },
        }
    }
    assert(out@ + seq![] =~= out@);
    Ok(out)
}


proof fn lemma_substitute_from_ok_iff(s: Seq<char>, i: int, env: Seq<(Seq<char>, Seq<char>)>)
    requires
        0 <= i,
    ensures
        (substitute_from(s, i, env) is Ok) <==> (forall|k: int|
            0 <= k < var_refs_from(s, i).len() ==> #[trigger] env_lookup(env, var_refs_from(s, i)[k]) is Some),
        (var_refs_from(s, i).len() == 0 && i <= s.len()) ==> substitute_from(s, i, env) == Ok::<Seq<char>, Seq<char>>(s.skip(i)),
    decreases s.len() - i,
{
    if i < s.len() {
        match ref_end_at(s, i) {
            Some(e) => {
                lemma_substitute_from_ok_iff(s, e, env);
                let name = s.subrange(i + 2, e - 1);
                let refs = var_refs_from(s, i);
                assert(refs =~= seq![name] + var_refs_from(s, e));
                assert(refs[0] == name);
                if substitute_from(s, i, env) is Ok {
                    assert forall|k: int| 0 <= k < refs.len() implies #[trigger] env_lookup(env, refs[k]) is Some by {
                        if k > 0 {
                            assert(refs[k] == var_refs_from(s, e)[k - 1]);
                        }
                    }
                } else if forall|k: int| 0 <= k < refs.len() ==> #[trigger] env_lookup(env, refs[k]) is Some {
                    assert(env_lookup(env, refs[0]) is Some);
                    assert forall|k: int| 0 <= k < var_refs_from(s, e).len() implies #[trigger] env_lookup(env, var_refs_from(s, e)[k]) is Some by {
                        assert(refs[k + 1] == var_refs_from(s, e)[k]);
                    }
                }
            },
            None => {
                lemma_substitute_from_ok_iff(s, i + 1, env);
                assert(var_refs_from(s, i) == var_refs_from(s, i + 1));
                if var_refs_from(s, i).len() == 0 {
                    assert(seq![s[i]] + s.skip(i + 1) =~= s.skip(i));
                }
            },
        }
    } else if i == s.len() {
        assert(s.skip(i) =~= seq![]);
    }
}

/// A substitution succeeds exactly when every referenced variable is set, and a
/// string without references is left as it is.
pub proof fn lemma_substitute_ok_iff_refs_bound(s: Seq<char>, env: Seq<(Seq<char>, Seq<char>)>)
    ensures
        (substitute(s, env) is Ok) <==> (forall|k: int|
            0 <= k < var_refs(s).len() ==> #[trigger] env_lookup(env, var_refs(s)[k]) is Some),
        var_refs(s).len() == 0 ==> substitute(s, env) == Ok::<Seq<char>, Seq<char>>(s),
{
    lemma_substitute_from_ok_iff(s, 0, env);
    assert(s.skip(0) =~= s);
}

} // verus!
