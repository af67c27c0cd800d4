use vstd::prelude::*;

verus! {

/// A character that may occur in a variable name: ASCII alphanumeric or `_`.
pub open spec fn is_var_char(c: char) -> bool {
    ('a' <= c && c <= 'z') || ('A' <= c && c <= 'Z') || ('0' <= c && c <= '9') || c == '_'
}

/// The length of the longest prefix of `s` made of variable-name characters.
pub open spec fn var_name_len(s: Seq<char>) -> nat
    decreases s.len(),
{
    if s.len() > 0 && is_var_char(s[0]) {
        1 + var_name_len(s.drop_first())
    } else {
        0
    }
}

/// The value of the first binding of `name` in `env`, if any.
pub open spec fn env_lookup(env: Seq<(Seq<char>, Seq<char>)>, name: Seq<char>) -> Option<
    Seq<char>,
>
    decreases env.len(),
{
    if env.len() == 0 {
        None
    } else if env[0].0 == name {
        Some(env[0].1)
    } else {
        env_lookup(env.drop_first(), name)
    }
}

/// The variable bindings `env` as pairs of character sequences.
pub open spec fn env_view(env: Seq<(String, String)>) -> Seq<(Seq<char>, Seq<char>)> {
    env.map_values(|p: (String, String)| (p.0@, p.1@))
}

pub proof fn lemma_var_name_len_bound(s: Seq<char>)
    ensures
        var_name_len(s) <= s.len(),
    decreases s.len(),
{
    if s.len() > 0 && is_var_char(s[0]) {
        lemma_var_name_len_bound(s.drop_first());
    }
}

/// `s` with every `$NAME` reference replaced by the value of `NAME` in `env`.
///
/// `NAME` is the longest run of ASCII alphanumerics and `_` after the `$`. A
/// name that `env` does not bind is left as it stands, and a `$` that no name
/// follows is kept.
pub open spec fn expand_vars(s: Seq<char>, env: Seq<(Seq<char>, Seq<char>)>) -> Seq<char>
    decreases s.len(),
{
    if s.len() == 0 {
        seq![]
    } else if s[0] == '$' {
        let rest = s.drop_first();
        let n = var_name_len(rest);
        proof {
            lemma_var_name_len_bound(rest);
        }
        if n == 0 {
            seq!['$'] + expand_vars(rest, env)
        } else {
            let name = rest.take(n as int);
            match env_lookup(env, name) {
                Some(value) => value + expand_vars(rest.skip(n as int), env),
                None => seq!['$'] + name + expand_vars(rest.skip(n as int), env),
            }
        }
    } else {
        seq![s[0]] + expand_vars(s.drop_first(), env)
    }
}

proof fn lemma_var_name_len_exact(t: Seq<char>, m: int)
    requires
        0 <= m <= t.len(),
        forall|k: int| 0 <= k < m ==> #[trigger] is_var_char(t[k]),
        m == t.len() || !is_var_char(t[m]),
    ensures
        var_name_len(t) == m,
    decreases m,
{
    if m > 0 {
        let u = t.drop_first();
        assert forall|k: int| 0 <= k < m - 1 implies #[trigger] is_var_char(u[k]) by {
            assert(u[k] == t[k + 1]);
            assert(is_var_char(t[k + 1]));
        }
        if m - 1 < u.len() {
            assert(u[m - 1] == t[m]);
        }
        lemma_var_name_len_exact(u, m - 1);
    } else {
        if t.len() > 0 {
            assert(!is_var_char(t[0]));
        }
    }
}

fn var_char(c: char) -> (b: bool)
    ensures
        b == is_var_char(c),
{
    ('a' <= c && c <= 'z') || ('A' <= c && c <= 'Z') || ('0' <= c && c <= '9') || c == '_'
}

/// The value of the first binding of `name` in `env`, if any.
fn lookup_var<'a>(env: &'a Vec<(String, String)>, name: &str) -> (r: Option<&'a String>)
    ensures
        match r {
            Some(v) => env_lookup(env_view(env@), name@) == Some(v@),
            None => env_lookup(env_view(env@), name@) is None,
        },
{
    let key = String::from_str(name);
    let ghost ev = env_view(env@);
    let mut k: usize = 0;
    assert(ev.skip(0) =~= ev);
    while k < env.len()
        invariant
            k <= env@.len(),
            ev == env_view(env@),
            key@ == name@,
            env_lookup(ev, name@) == env_lookup(ev.skip(k as int), name@),
        decreases env@.len() - k,
    {
        let ghost tail = ev.skip(k as int);
        assert(tail[0] == (env@[k as int].0@, env@[k as int].1@));
        assert(tail.drop_first() =~= ev.skip(k + 1));
        if env[k].0 == key {
            return Some(&env[k].1);
        }
        k += 1;
    }
    assert(ev.skip(k as int) =~= Seq::<(Seq<char>, Seq<char>)>::empty());
    None
}

/// Expands `$VARNAME` references in `s` with the bindings in `env`.
///
/// A name is the longest run of ASCII alphanumerics and `_` after a `$`; the
/// first binding of the name in `env` replaces `$NAME`. A name that `env` does
/// not bind is left as `$NAME`, and a `$` with no name after it (as at the end
/// of the string) is kept.
pub fn expand_env(s: &str, env: &Vec<(String, String)>) -> (r: String)
    ensures
        r@ == expand_vars(s@, env_view(env@)),
{
    let ghost ev = env_view(env@);
    let n = s.unicode_len();
    let mut out = String::new();
    let mut i: usize = 0;
    proof {
        reveal_strlit("$");
        assert(s@.skip(0) =~= s@);
    }
    while i < n
        invariant
            i <= n,
            n == s@.len(),
            ev == env_view(env@),
            "$"@ == seq!['$'],
            expand_vars(s@, ev) == out@ + expand_vars(s@.skip(i as int), ev),
        decreases n - i,
    {
        let ghost t = s@.skip(i as int);
        let c = s.get_char(i);
        if c == '$' {
            let mut j = i + 1;
            while j < n && var_char(s.get_char(j))
                invariant
                    i < j <= n,
                    n == s@.len(),
                    forall|k: int| i + 1 <= k < j ==> #[trigger] is_var_char(s@[k]),
                decreases n - j,
            {
                j += 1;
            }
            let ghost rest = t.drop_first();
            proof {
                assert(rest =~= s@.skip(i + 1));
                assert forall|k: int| 0 <= k < j - i - 1 implies #[trigger] is_var_char(
                    rest[k],
                ) by {
                    assert(rest[k] == s@[i + 1 + k]);
                }
                if j < n {
                    assert(rest[j - i - 1] == s@[j as int]);
                }
                lemma_var_name_len_exact(rest, j - i - 1);
                assert(rest.skip(j - i - 1) =~= s@.skip(j as int));
            }
            if j == i + 1 {
                out.append("$");
            } else {
                let name = s.substring_char(i + 1, j);
                assert(name@ =~= rest.take(j - i - 1));
                match lookup_var(env, name) {
                    Some(v) => out.append(v.as_str()),
                    None => {
                        out.append("$");
                        out.append(name);
                    },
                }
            }
            i = j;
        } else {
            let piece = s.substring_char(i, i + 1);
            assert(piece@ =~= seq![c]);
            assert(t.drop_first() =~= s@.skip(i + 1));
            out.append(piece);
            i += 1;
        }
    }
    out
}


/// Text without `$` has no references to expand: it is left unchanged.
pub proof fn lemma_expand_without_dollar(s: Seq<char>, env: Seq<(Seq<char>, Seq<char>)>)
    requires
        forall|i: int| 0 <= i < s.len() ==> s[i] != '$',
    ensures
        expand_vars(s, env) == s,
    decreases s.len(),
{
    if s.len() > 0 {
        let t = s.drop_first();
        assert forall|i: int| 0 <= i < t.len() implies t[i] != '$' by {
            assert(t[i] == s[i + 1]);
        }
        lemma_expand_without_dollar(t, env);
        assert(s =~= seq![s[0]] + t);
    }
}

/// With no variable bound, expansion leaves every `$NAME` and every bare `$`
/// as it stands: the text is unchanged.
pub proof fn lemma_expand_unbound_is_identity(s: Seq<char>)
    ensures
        expand_vars(s, Seq::<(Seq<char>, Seq<char>)>::empty()) == s,
    decreases s.len(),
{
    let env = Seq::<(Seq<char>, Seq<char>)>::empty();
    if s.len() > 0 {
        let rest = s.drop_first();
        if s[0] == '$' {
            let n = var_name_len(rest);
            lemma_var_name_len_bound(rest);
            if n == 0 {
                lemma_expand_unbound_is_identity(rest);
            } else {
                lemma_expand_unbound_is_identity(rest.skip(n as int));
                assert(rest =~= rest.take(n as int) + rest.skip(n as int));
            }
            assert(s =~= seq!['$'] + rest);
        } else {
            lemma_expand_unbound_is_identity(rest);
            assert(s =~= seq![s[0]] + rest);
        }
    }
}

proof fn lemma_env_lookup_unbound(env: Seq<(Seq<char>, Seq<char>)>, name: Seq<char>)
    requires
        forall|j: int| 0 <= j < env.len() ==> env[j].0 != name,
    ensures
        env_lookup(env, name) is None,
    decreases env.len(),
{
    if env.len() > 0 {
        let t = env.drop_first();
        assert forall|j: int| 0 <= j < t.len() implies t[j].0 != name by {
            assert(t[j] == env[j + 1]);
        }
        lemma_env_lookup_unbound(t, name);
    }
}

proof fn lemma_env_lookup_first(env: Seq<(Seq<char>, Seq<char>)>, name: Seq<char>, j: int)
    requires
        0 <= j < env.len(),
        env[j].0 == name,
        forall|i: int| 0 <= i < j ==> env[i].0 != name,
    ensures
        env_lookup(env, name) == Some(env[j].1),
    decreases j,
{
    if j > 0 {
        let t = env.drop_first();
        assert forall|i: int| 0 <= i < j - 1 implies t[i].0 != name by {
            assert(t[i] == env[i + 1]);
        }
        assert(t[j - 1] == env[j]);
        assert(env[0].0 != name);
        lemma_env_lookup_first(t, name, j - 1);
    }
}

/// A `$NAME` reference (a non-empty run of ASCII letters, digits and `_`, not
/// followed by another such character) is replaced by the value of the first
/// binding of `NAME` in `env`; where `env` binds no `NAME`, whatever else it
/// binds, the reference is kept exactly as written. The rest of the text is
/// expanded on its own.
pub proof fn lemma_expand_reference(
    env: Seq<(Seq<char>, Seq<char>)>,
    name: Seq<char>,
    tail: Seq<char>,
)
    requires
        name.len() > 0,
        forall|i: int|
            0 <= i < name.len() ==> {
                let c = #[trigger] name[i];
                ('a' <= c && c <= 'z') || ('A' <= c && c <= 'Z') || ('0' <= c && c <= '9') || c
                    == '_'
            },
        tail.len() > 0 ==> !{
            let c = tail[0];
            ('a' <= c && c <= 'z') || ('A' <= c && c <= 'Z') || ('0' <= c && c <= '9') || c == '_'
        },
    ensures
        (forall|j: int| 0 <= j < env.len() ==> env[j].0 != name) ==> expand_vars(
            seq!['$'] + name + tail,
            env,
        ) == seq!['$'] + name + expand_vars(tail, env),
        forall|j: int|
            0 <= j < env.len() && env[j].0 == name && (forall|i: int| 0 <= i < j ==> env[i].0 != name)
                ==> expand_vars(seq!['$'] + name + tail, env) == #[trigger] env[j].1 + expand_vars(
                tail,
                env,
            ),
{
    let s = seq!['$'] + name + tail;
    let rest = s.drop_first();
    assert(rest =~= name + tail);
    let n = name.len() as int;
    assert forall|k: int| 0 <= k < n implies #[trigger] is_var_char(rest[k]) by {
        assert(rest[k] == name[k]);
    }
    if n < rest.len() {
        assert(rest[n] == tail[0]);
    }
    lemma_var_name_len_exact(rest, n);
    assert(rest.take(n) =~= name);
    assert(rest.skip(n) =~= tail);
    if forall|j: int| 0 <= j < env.len() ==> env[j].0 != name {
        lemma_env_lookup_unbound(env, name);
        assert(seq!['$'] + name + expand_vars(tail, env) =~= seq!['$'] + name + expand_vars(tail, env));
    }
    assert forall|j: int|
        0 <= j < env.len() && env[j].0 == name && (forall|i: int| 0 <= i < j ==> env[i].0 != name)
            implies expand_vars(s, env) == #[trigger] env[j].1 + expand_vars(tail, env) by {
        lemma_env_lookup_first(env, name, j);
    }
}

/// A single wrapper entry in the runtime config.
#[derive(Debug, Clone, PartialEq, Eq)]
pub struct WrapperEntry {
    pub binary_name: String,
    pub workspace: String,
    pub target_bin: String,
    pub args: Vec<String>,
}

/// A resolved wrapper, ready to run: variables expanded, arguments assembled.
#[derive(Debug, Clone, PartialEq, Eq)]
pub struct ResolvedWrapper {
    pub workspace: String,
    pub target: String,
    pub args: Vec<String>,
}

/// Errors in resolving a wrapper name.
#[derive(Debug)]
pub enum ResolveError {
    /// No entry has the requested binary name.
    UnknownWrapper(String),
    /// The resolver could not read its entries; the text says why.
    Unavailable(String),
}

/// The human-readable text of a resolution error.
pub open spec fn resolve_error_message(e: ResolveError) -> Seq<char> {
    match e {
        ResolveError::UnknownWrapper(name) => "unknown wrapper '"@ + name@ + "'"@,
        ResolveError::Unavailable(reason) => reason@,
    }
}

impl ResolveError {
    /// The message that describes this error.
    pub fn message(&self) -> (m: String)
        ensures
            m@ == resolve_error_message(*self),
    {
        match self {
            ResolveError::UnknownWrapper(name) => {
                let mut m = String::from_str("unknown wrapper '");
                m.append(name.as_str());
                m.append("'");
                m
            },
            ResolveError::Unavailable(reason) => reason.clone(),
        }
    }
}

/// `i` is the position of the first entry whose binary name is `name`.
pub open spec fn is_first_entry(entries: Seq<WrapperEntry>, name: Seq<char>, i: int) -> bool {
    &&& 0 <= i < entries.len()
    &&& entries[i].binary_name@ == name
    &&& forall|j: int| 0 <= j < i ==> entries[j].binary_name@ != name
}

/// `w` is `e` resolved with `env`: its workspace, and its target and arguments
/// with their variables expanded.
pub open spec fn resolves_to(
    w: ResolvedWrapper,
    e: WrapperEntry,
    env: Seq<(Seq<char>, Seq<char>)>,
) -> bool {
    &&& w.workspace@ == e.workspace@
    &&& w.target@ == expand_vars(e.target_bin@, env)
    &&& w.args@.len() == e.args@.len()
    &&& forall|k: int| 0 <= k < w.args@.len() ==> #[trigger] w.args@[k]@ == expand_vars(
        e.args@[k]@,
        env,
    )
}

/// `r` is the resolution of `name` against `entries` with the bindings `env`:
/// the first entry of that binary name, resolved, or `UnknownWrapper(name)`
/// where no entry has it.
pub open spec fn is_resolution(
    entries: Seq<WrapperEntry>,
    name: Seq<char>,
    env: Seq<(Seq<char>, Seq<char>)>,
    r: Result<ResolvedWrapper, ResolveError>,
) -> bool {
    &&& (r is Ok <==> exists|i: int| 0 <= i < entries.len() && #[trigger] entries[i].binary_name@ == name)
    &&& (r matches Ok(w) ==> exists|i: int| #[trigger] is_first_entry(entries, name, i) && resolves_to(w, entries[i], env))
    &&& (r matches Err(e) ==> (e matches ResolveError::UnknownWrapper(t) && t@ == name))
}

/// Resolves the wrapper called `name` among `entries`, expanding variables in
/// its target and arguments with the bindings `env`.
pub fn resolve_wrapper(entries: &Vec<WrapperEntry>, name: &str, env: &Vec<(String, String)>) -> (r:
    Result<ResolvedWrapper, ResolveError>)
    ensures
        is_resolution(entries@, name@, env_view(env@), r),
{
    let key = String::from_str(name);
    let mut i: usize = 0;
    while i < entries.len()
        invariant
            i <= entries@.len(),
            key@ == name@,
            forall|j: int| 0 <= j < i ==> entries@[j].binary_name@ != name@,
        decreases entries@.len() - i,
    {
        if entries[i].binary_name == key {
            let entry = &entries[i];
            assert(is_first_entry(entries@, name@, i as int));
            let target = expand_env(entry.target_bin.as_str(), env);
            let mut args: Vec<String> = Vec::new();
            let mut k: usize = 0;
            while k < entry.args.len()
                invariant
                    k <= entry.args@.len(),
                    args@.len() == k,
                    forall|m: int| 0 <= m < k ==> #[trigger] args@[m]@ == expand_vars(
                        entry.args@[m]@,
                        env_view(env@),
                    ),
                decreases entry.args@.len() - k,
            {
                args.push(expand_env(entry.args[k].as_str(), env));
                k += 1;
            }
            let w = ResolvedWrapper { workspace: entry.workspace.clone(), target, args };
            assert(resolves_to(w, entries@[i as int], env_view(env@)));
            return Ok(w);
        }
        i += 1;
    }
    Err(ResolveError::UnknownWrapper(key))
}

/// Resolves a wrapper name to an executable target and arguments.
/// Implement it for other sources of wrapper entries.
pub trait WrapperResolver {
    /// Finds the wrapper called `name` and resolves it, expanding variables
    /// with the bindings `env`.
    fn resolve(&self, name: &str, env: &Vec<(String, String)>) -> Result<
        ResolvedWrapper,
        ResolveError,
    >;
}

/// A resolver over entries held in memory.
pub struct MockResolver {
    pub entries: Vec<WrapperEntry>,
}

impl WrapperResolver for MockResolver {
    fn resolve(&self, name: &str, env: &Vec<(String, String)>) -> (r: Result<
        ResolvedWrapper,
        ResolveError,
    >)
        ensures
            is_resolution(self.entries@, name@, env_view(env@), r),
    {
        resolve_wrapper(&self.entries, name, env)
    }
}


/// `rel` appended to the path `base`, as `PathBuf::join` does on Unix: an
/// absolute `rel` replaces `base`; otherwise a `/` separates the two unless
/// `base` is empty or already ends with one.
pub open spec fn join_path(base: Seq<char>, rel: Seq<char>) -> Seq<char> {
    if rel.len() > 0 && rel[0] == '/' {
        rel
    } else if base.len() == 0 || base.last() == '/' {
        base + rel
    } else {
        base + seq!['/'] + rel
    }
}

/// Joins the relative or absolute path `rel` onto `base`.
pub fn join_path_str(base: &str, rel: &str) -> (r: String)
    ensures
        r@ == join_path(base@, rel@),
{
    let rn = rel.unicode_len();
    if rn > 0 && rel.get_char(0) == '/' {
        return String::from_str(rel);
    }
    let bn = base.unicode_len();
    let mut r = String::from_str(base);
    if bn > 0 && base.get_char(bn - 1) != '/' {
        proof {
            reveal_strlit("/");
        }
        r.append("/");
    }
    r.append(rel);
    r
}

/// The wrapper config directory: `$XDG_CONFIG_HOME/workspace-config/wrappers.d`
/// when `XDG_CONFIG_HOME` is set, else `$HOME/.config/workspace-config/wrappers.d`
/// with an unset `HOME` read as empty.
pub open spec fn spec_config_dir(xdg_config_home: Option<Seq<char>>, home: Option<Seq<char>>) -> Seq<
    char,
> {
    match xdg_config_home {
        Some(x) => join_path(x, "workspace-config/wrappers.d"@),
        None => join_path(
            join_path(
                match home {
                    Some(h) => h,
                    None => Seq::empty(),
                },
                ".config"@,
            ),
            "workspace-config/wrappers.d"@,
        ),
    }
}

/// Finds the wrappers.d config directory from the values of the variables
/// `XDG_CONFIG_HOME` and `HOME` (`None` where a variable is unset).
pub fn config_dir(xdg_config_home: Option<&str>, home: Option<&str>) -> (r: String)
    ensures
        r@ == spec_config_dir(
            match xdg_config_home {
                Some(x) => Some(x@),
                None => None,
            },
            match home {
                Some(h) => Some(h@),
                None => None,
            },
        ),
{
    match xdg_config_home {
        Some(x) => join_path_str(x, "workspace-config/wrappers.d"),
        None => {
            let config = match home {
                Some(h) => join_path_str(h, ".config"),
                None => join_path_str("", ".config"),
            };
            proof {
                reveal_strlit("");
            }
            join_path_str(config.as_str(), "workspace-config/wrappers.d")
        },
    }
}

/// The formats a wrapper config file may be written in.
#[derive(Debug, Clone, Copy, PartialEq, Eq)]
pub enum WrapperFormat {
    Json,
    Yaml,
}

/// The position of the last `.` in `s`, or -1 where there is none.
pub open spec fn last_dot(s: Seq<char>) -> int
    decreases s.len(),
{
    if s.len() == 0 {
        -1
    } else if s.last() == '.' {
        s.len() - 1
    } else {
        last_dot(s.drop_last())
    }
}

/// The extension of the file name `name`, as `Path::extension` gives it: what
/// follows the last `.`, where that `.` is not the first character and the name
/// is not `..`.
pub open spec fn file_extension(name: Seq<char>) -> Option<Seq<char>> {
    if name == ".."@ || last_dot(name) <= 0 {
        None
    } else {
        Some(name.skip(last_dot(name) + 1))
    }
}

/// The format of a wrapper config file, by the extension of its name:
/// `.json` is JSON, `.yaml` and `.yml` are YAML; other files are not read.
pub open spec fn spec_wrapper_file_format(name: Seq<char>) -> Option<WrapperFormat> {
    match file_extension(name) {
        Some(ext) => if ext == "json"@ {
            Some(WrapperFormat::Json)
        } else if ext == "yaml"@ || ext == "yml"@ {
            Some(WrapperFormat::Yaml)
        } else {
            None
        },
        None => None,
    }
}

/// Chooses how to read the wrapper config file called `file_name`, or `None`
/// when it is not a wrapper config file.
pub fn wrapper_file_format(file_name: &str) -> (r: Option<WrapperFormat>)
    ensures
        r == spec_wrapper_file_format(file_name@),
{
    let n = file_name.unicode_len();
    let name = String::from_str(file_name);
    if name == String::from_str("..") {
        return None;
    }
    let mut k: usize = n;
    assert(file_name@.take(n as int) =~= file_name@);
    while k > 0 && file_name.get_char(k - 1) != '.'
        invariant
            k <= n,
            n == file_name@.len(),
            last_dot(file_name@) == last_dot(file_name@.take(k as int)),
        decreases k,
    {
        assert(file_name@.take(k as int).drop_last() =~= file_name@.take(k - 1));
        k -= 1;
    }
    proof {
        assert(file_name@.take(n as int) =~= file_name@);
        if k > 0 {
            assert(file_name@.take(k as int).last() == '.');
        } else {
            assert(file_name@.take(0) =~= Seq::<char>::empty());
        }
    }
    if k <= 1 {
        return None;
    }
    let ext = String::from_str(file_name.substring_char(k, n));
    assert(ext@ =~= file_name@.skip(k as int));
    if ext == String::from_str("json") {
        Some(WrapperFormat::Json)
    } else if ext == String::from_str("yaml") || ext == String::from_str("yml") {
        Some(WrapperFormat::Yaml)
    } else {
        None
    }
}

/// `a` comes strictly before `b` in the lexicographic order of their characters,
/// which is the byte order of their UTF-8 encodings: the order of file names.
pub open spec fn lex_lt(a: Seq<char>, b: Seq<char>) -> bool
    decreases a.len(),
{
    if a.len() == 0 {
        b.len() > 0
    } else if b.len() == 0 {
        false
    } else if a[0] != b[0] {
        a[0] < b[0]
    } else {
        lex_lt(a.drop_first(), b.drop_first())
    }
}

pub proof fn lemma_lex_lt_irreflexive(a: Seq<char>)
    ensures
        !lex_lt(a, a),
    decreases a.len(),
{
    if a.len() > 0 {
        lemma_lex_lt_irreflexive(a.drop_first());
    }
}

pub proof fn lemma_lex_lt_transitive(a: Seq<char>, b: Seq<char>, c: Seq<char>)
    requires
        lex_lt(a, b),
        lex_lt(b, c),
    ensures
        lex_lt(a, c),
    decreases a.len(),
{
    if a.len() > 0 && a[0] == b[0] && b[0] == c[0] {
        lemma_lex_lt_transitive(a.drop_first(), b.drop_first(), c.drop_first());
    }
}

/// Compares two texts in the lexicographic order of their characters.
pub fn lex_less(a: &str, b: &str) -> (r: bool)
    ensures
        r == lex_lt(a@, b@),
{
    let n = a.unicode_len();
    let m = b.unicode_len();
    let mut i: usize = 0;
    assert(a@.skip(0) =~= a@ && b@.skip(0) =~= b@);
    while i < n && i < m
        invariant
            i <= n,
            i <= m,
            n == a@.len(),
            m == b@.len(),
            lex_lt(a@, b@) == lex_lt(a@.skip(i as int), b@.skip(i as int)),
        decreases n - i,
    {
        let x = a.get_char(i);
        let y = b.get_char(i);
        assert(a@.skip(i as int)[0] == x && b@.skip(i as int)[0] == y);
        if x != y {
            return x < y;
        }
        assert(a@.skip(i as int).drop_first() =~= a@.skip(i + 1));
        assert(b@.skip(i as int).drop_first() =~= b@.skip(i + 1));
        i += 1;
    }
    i == n && i < m
}

/// The files at positions `i` and `j` are in order: `j`'s name does not come
/// before `i`'s, and where the names are equal, `i` comes first.
pub open spec fn files_in_order(names: Seq<Seq<char>>, i: int, j: int) -> bool {
    &&& !lex_lt(names[j], names[i])
    &&& (names[i] == names[j] ==> i < j)
}

/// The names as character sequences.
pub open spec fn names_view(names: Seq<String>) -> Seq<Seq<char>> {
    names.map_values(|s: String| s@)
}

/// `r` lists, by position in `names`, each wrapper config file of `names` once,
/// with its format, sorted by file name.
pub open spec fn is_wrapper_file_order(names: Seq<Seq<char>>, r: Seq<(usize, WrapperFormat)>) -> bool {
    &&& forall|k: int|
        0 <= k < r.len() ==> r[k].0 < names.len() && spec_wrapper_file_format(
            names[#[trigger] r[k].0 as int],
        ) == Some(r[k].1)
    &&& forall|i: int|
        0 <= i < names.len() && #[trigger] spec_wrapper_file_format(names[i]) is Some ==> exists|
            k: int,
        |
            0 <= k < r.len() && #[trigger] r[k].0 == i
    &&& forall|a: int, b: int| 0 <= a < b < r.len() ==> r[a].0 != r[b].0
    &&& forall|a: int, b: int|
        0 <= a < b < r.len() ==> files_in_order(names, #[trigger] r[a].0 as int, #[trigger] r[b].0 as int)
}

/// The wrapper config files among the file names `names`, with the format to
/// read each in, in the order of their names (ties, which a directory does not
/// have, keep their order in `names`).
pub fn wrapper_file_order(names: &Vec<String>) -> (r: Vec<(usize, WrapperFormat)>)
    ensures
        is_wrapper_file_order(names_view(names@), r@),
{
    let ghost nv = names_view(names@);
    let n = names.len();
    let mut rem: Vec<(usize, WrapperFormat)> = Vec::new();
    for i in 0..n
        invariant
            n == names@.len(),
            nv == names_view(names@),
            forall|k: int|
                0 <= k < rem@.len() ==> rem@[k].0 < i && spec_wrapper_file_format(
                    nv[#[trigger] rem@[k].0 as int],
                ) == Some(rem@[k].1),
            forall|a: int, b: int| 0 <= a < b < rem@.len() ==> rem@[a].0 < rem@[b].0,
            forall|j: int|
                0 <= j < i && #[trigger] spec_wrapper_file_format(nv[j]) is Some ==> exists|k: int|
                    0 <= k < rem@.len() && #[trigger] rem@[k].0 == j,
    {
        assert(nv[i as int] == names@[i as int]@);
        let ghost before = rem@;
        match wrapper_file_format(names[i].as_str()) {
            Some(f) => {
                rem.push((i, f));
                assert(rem@[rem@.len() - 1].0 == i);
            },
            None => {},
        }
        assert forall|j: int|
            0 <= j < i + 1 && #[trigger] spec_wrapper_file_format(nv[j]) is Some implies exists|k: int|
                0 <= k < rem@.len() && #[trigger] rem@[k].0 == j by {
            if j < i {
                let k = choose|k: int| 0 <= k < before.len() && #[trigger] before[k].0 == j;
                assert(rem@[k] == before[k]);
            }
        }
    }
    let mut out: Vec<(usize, WrapperFormat)> = Vec::new();
    while rem.len() > 0
        invariant
            n == names@.len(),
            nv == names_view(names@),
            forall|k: int|
                0 <= k < out@.len() ==> out@[k].0 < n && spec_wrapper_file_format(
                    nv[#[trigger] out@[k].0 as int],
                ) == Some(out@[k].1),
            forall|k: int|
                0 <= k < rem@.len() ==> rem@[k].0 < n && spec_wrapper_file_format(
                    nv[#[trigger] rem@[k].0 as int],
                ) == Some(rem@[k].1),
            forall|a: int, b: int| 0 <= a < b < rem@.len() ==> rem@[a].0 < rem@[b].0,
            forall|a: int, b: int| 0 <= a < b < out@.len() ==> out@[a].0 != out@[b].0,
            forall|a: int, k: int| 0 <= a < out@.len() && 0 <= k < rem@.len() ==> out@[a].0 != rem@[k].0,
            forall|j: int|
                0 <= j < n && #[trigger] spec_wrapper_file_format(nv[j]) is Some ==> (exists|k: int|
                    0 <= k < out@.len() && #[trigger] out@[k].0 == j) || (exists|k: int|
                    0 <= k < rem@.len() && #[trigger] rem@[k].0 == j),
            forall|a: int, b: int|
                0 <= a < b < out@.len() ==> files_in_order(nv, #[trigger] out@[a].0 as int, #[trigger] out@[b].0 as int),
            forall|a: int, k: int|
                0 <= a < out@.len() && 0 <= k < rem@.len() ==> files_in_order(nv, #[trigger] out@[a].0 as int, #[trigger] rem@[k].0 as int),
        decreases rem@.len(),
    {
        let mut best: usize = 0;
        let mut q: usize = 1;
        proof {
            lemma_lex_lt_irreflexive(nv[rem@[0].0 as int]);
        }
        while q < rem.len()
            invariant
                1 <= q <= rem@.len(),
                best < q,
                n == names@.len(),
                nv == names_view(names@),
                forall|k: int| 0 <= k < rem@.len() ==> #[trigger] rem@[k].0 < n,
                forall|t: int|
                    0 <= t < q ==> !lex_lt(nv[#[trigger] rem@[t].0 as int], nv[rem@[best as int].0 as int])
                        && (nv[rem@[t].0 as int] == nv[rem@[best as int].0 as int] ==> t >= best),
            decreases rem@.len() - q,
        {
            assert(nv[rem@[q as int].0 as int] == names@[rem@[q as int].0 as int]@);
            assert(nv[rem@[best as int].0 as int] == names@[rem@[best as int].0 as int]@);
            if lex_less(names[rem[q].0].as_str(), names[rem[best].0].as_str()) {
                proof {
                    let newb = nv[rem@[q as int].0 as int];
                    let oldb = nv[rem@[best as int].0 as int];
                    assert forall|t: int| 0 <= t < q implies !lex_lt(nv[#[trigger] rem@[t].0 as int], newb)
                        && (nv[rem@[t].0 as int] == newb ==> t >= q) by {
                        if lex_lt(nv[rem@[t].0 as int], newb) {
                            lemma_lex_lt_transitive(nv[rem@[t].0 as int], newb, oldb);
                        }
                    }
                    lemma_lex_lt_irreflexive(newb);
                }
                best = q;
            }
            q += 1;
        }
        let ghost old_rem = rem@;
        let ghost old_out = out@;
        let m = rem.remove(best);
        proof {
            old_rem.remove_ensures(best as int);
        }
        out.push(m);
        proof {
            let k_out = out@.len() - 1;
            assert(out@[k_out] == m);
            assert forall|k: int| 0 <= k < rem@.len() implies files_in_order(nv, m.0 as int, #[trigger] rem@[k].0 as int) by {
                let t = if k < best { k } else { k + 1 };
                assert(rem@[k] == old_rem[t]);
                if nv[m.0 as int] == nv[rem@[k].0 as int] {
                    assert(t >= best);
                    assert(t != best);
                    assert(old_rem[best as int].0 < old_rem[t].0);
                }
            }
            assert forall|j: int|
                0 <= j < n && #[trigger] spec_wrapper_file_format(nv[j]) is Some implies (exists|k: int|
                    0 <= k < out@.len() && #[trigger] out@[k].0 == j) || (exists|k: int|
                    0 <= k < rem@.len() && #[trigger] rem@[k].0 == j) by {
                assert(spec_wrapper_file_format(nv[j]) is Some);
                if exists|k: int| 0 <= k < old_rem.len() && #[trigger] old_rem[k].0 == j {
                    let t = choose|k: int| 0 <= k < old_rem.len() && #[trigger] old_rem[k].0 == j;
                    if t < best {
                        assert(rem@[t].0 == j);
                    } else if t == best {
                        assert(out@[k_out].0 == j);
                    } else {
                        assert(rem@[t - 1].0 == j);
                    }
                } else {
                    let a = choose|k: int| 0 <= k < old_out.len() && #[trigger] old_out[k].0 == j;
                    assert(out@[a] == old_out[a]);
                }
            }
        }
    }
    out
}

/// Resolving a name finds the first entry of that name: the workspace is that
/// entry's, and there are exactly as many arguments as the entry has. At every
/// position, an argument without `$` is passed unchanged, and an argument
/// `$NAME<tail>` (with `<tail>` free of `$` and not continuing the name) becomes
/// the value of the first binding of `NAME` followed by `<tail>`.
pub proof fn lemma_resolved_arguments(
    entries: Seq<WrapperEntry>,
    name: Seq<char>,
    env: Seq<(Seq<char>, Seq<char>)>,
    r: Result<ResolvedWrapper, ResolveError>,
    i: int,
    k: int,
)
    requires
        is_resolution(entries, name, env, r),
        0 <= i < entries.len(),
        entries[i].binary_name@ == name,
        forall|j: int| 0 <= j < i ==> entries[j].binary_name@ != name,
        0 <= k < entries[i].args@.len(),
    ensures
        r is Ok,
        r->Ok_0.workspace@ == entries[i].workspace@,
        r->Ok_0.args@.len() == entries[i].args@.len(),
        (forall|c: int|
            0 <= c < entries[i].args@[k]@.len() ==> entries[i].args@[k]@[c] != '$')
            ==> r->Ok_0.args@[k]@ == entries[i].args@[k]@,
        forall|var: Seq<char>, tail: Seq<char>, j: int|
            #![trigger env[j], seq!['$'] + var + tail]
            entries[i].args@[k]@ == seq!['$'] + var + tail && var.len() > 0 && (forall|m: int|
                0 <= m < var.len() ==> {
                    let c = #[trigger] var[m];
                    ('a' <= c && c <= 'z') || ('A' <= c && c <= 'Z') || ('0' <= c && c <= '9') || c
                        == '_'
                }) && (tail.len() > 0 ==> !{
                let c = tail[0];
                ('a' <= c && c <= 'z') || ('A' <= c && c <= 'Z') || ('0' <= c && c <= '9') || c
                    == '_'
            }) && (forall|m: int| 0 <= m < tail.len() ==> tail[m] != '$') && 0 <= j < env.len()
                && env[j].0 == var && (forall|m: int| 0 <= m < j ==> env[m].0 != var)
                ==> r->Ok_0.args@[k]@ == env[j].1 + tail,
{
    assert(entries[i].binary_name@ == name);
    let w = r->Ok_0;
    let i2 = choose|i2: int| #[trigger] is_first_entry(entries, name, i2) && resolves_to(w, entries[i2], env);
    assert(i2 == i);
    assert(w.args@[k]@ == expand_vars(entries[i].args@[k]@, env));
    if forall|c: int| 0 <= c < entries[i].args@[k]@.len() ==> entries[i].args@[k]@[c] != '$' {
        lemma_expand_without_dollar(entries[i].args@[k]@, env);
    }
    assert forall|var: Seq<char>, tail: Seq<char>, j: int|
        #![trigger env[j], seq!['$'] + var + tail]
        entries[i].args@[k]@ == seq!['$'] + var + tail && var.len() > 0 && (forall|m: int|
            0 <= m < var.len() ==> {
                let c = #[trigger] var[m];
                ('a' <= c && c <= 'z') || ('A' <= c && c <= 'Z') || ('0' <= c && c <= '9') || c
                    == '_'
            }) && (tail.len() > 0 ==> !{
            let c = tail[0];
            ('a' <= c && c <= 'z') || ('A' <= c && c <= 'Z') || ('0' <= c && c <= '9') || c == '_'
        }) && (forall|m: int| 0 <= m < tail.len() ==> tail[m] != '$') && 0 <= j < env.len()
            && env[j].0 == var && (forall|m: int| 0 <= m < j ==> env[m].0 != var)
        implies w.args@[k]@ == env[j].1 + tail by {
        lemma_expand_reference(env, var, tail);
        lemma_expand_without_dollar(tail, env);
    }
}

} // verus!
