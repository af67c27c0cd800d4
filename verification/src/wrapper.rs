use vstd::prelude::*;

use crate::config::Workspace;
use crate::runtime::WrapperEntry;

verus! {

/// The binary name of the Ghostty wrapper of the workspace called `name`.
pub open spec fn wrapper_binary_name(name: Seq<char>) -> Seq<char> {
    "ghostty-"@ + name
}

/// The argument that points Ghostty at the config of the workspace called `name`.
pub open spec fn wrapper_config_arg(name: Seq<char>) -> Seq<char> {
    "--config-file=$HOME/.config/ghostty/config-"@ + name
}

/// Generates the wrapper entry that runs `ghostty_bin` for the workspace `ws`:
/// it is called `ghostty-<name>`, belongs to the workspace `<name>`, and passes
/// `--config-file=$HOME/.config/ghostty/config-<name>`.
pub fn ghostty_wrapper_entry(ghostty_bin: &str, ws: &Workspace) -> (e: WrapperEntry)
    ensures
        e.binary_name@ == wrapper_binary_name(ws.name@),
        e.workspace@ == ws.name@,
        e.target_bin@ == ghostty_bin@,
        e.args@.len() == 1,
        e.args@[0]@ == wrapper_config_arg(ws.name@),
{
    let mut binary_name = String::from_str("ghostty-");
    binary_name.append(ws.name.as_str());
    let mut arg = String::from_str("--config-file=$HOME/.config/ghostty/config-");
    arg.append(ws.name.as_str());
    let mut args: Vec<String> = Vec::new();
    args.push(arg);
    WrapperEntry {
        binary_name,
        workspace: ws.name.clone(),
        target_bin: String::from_str(ghostty_bin),
        args,
    }
}

/// A character that a double-quoted shell word escapes with a backslash.
pub open spec fn needs_dq_escape(c: char) -> bool {
    c == '"' || c == '\\' || c == '`'
}

/// `s` with a backslash before each character that double quotes escape.
pub open spec fn dq_escape(s: Seq<char>) -> Seq<char>
    decreases s.len(),
{
    if s.len() == 0 {
        seq![]
    } else {
        (if needs_dq_escape(s[0]) {
            seq!['\\', s[0]]
        } else {
            seq![s[0]]
        }) + dq_escape(s.drop_first())
    }
}

/// `s` as one double-quoted shell word; `$` references in it are expanded by
/// the shell when the script runs.
pub open spec fn dq_word(s: Seq<char>) -> Seq<char> {
    seq!['"'] + dq_escape(s) + seq!['"']
}

/// Each of `args` as a double-quoted word, each preceded by a space.
pub open spec fn quoted_args(args: Seq<Seq<char>>) -> Seq<char>
    decreases args.len(),
{
    if args.len() == 0 {
        seq![]
    } else {
        quoted_args(args.drop_last()) + seq![' '] + dq_word(args.last())
    }
}

/// The arguments of `e` as character sequences.
pub open spec fn entry_args(e: WrapperEntry) -> Seq<Seq<char>> {
    e.args@.map_values(|a: String| a@)
}

/// The text of the bash script that runs the wrapper `e`: it exports the
/// workspace as `WORKSPACE`, then replaces itself with the target, passing the
/// entry's arguments and then its own.
pub open spec fn wrapper_script_text(e: WrapperEntry) -> Seq<char> {
    "#!/bin/bash\nexport WORKSPACE="@ + dq_word(e.workspace@) + "\nexec "@ + dq_word(e.target_bin@)
        + quoted_args(entry_args(e)) + " \"$@\"\n"@
}

/// Appends `s` to `out` as one double-quoted shell word.
fn push_dq_word(out: &mut String, s: &str)
    ensures
        final(out)@ == old(out)@ + dq_word(s@),
{
    proof {
        reveal_strlit("\"");
        reveal_strlit("\\");
    }
    let ghost base = out@;
    out.append("\"");
    let n = s.unicode_len();
    let mut i: usize = 0;
    assert(s@.skip(0) =~= s@);
    while i < n
        invariant
            i <= n,
            n == s@.len(),
            "\\"@ == seq!['\\'],
            out@ + dq_escape(s@.skip(i as int)) == base + seq!['"'] + dq_escape(s@),
        decreases n - i,
    {
        let c = s.get_char(i);
        let ghost t = s@.skip(i as int);
        assert(t[0] == c);
        assert(t.drop_first() =~= s@.skip(i + 1));
        if c == '"' || c == '\\' || c == '`' {
            out.append("\\");
        }
        let piece = s.substring_char(i, i + 1);
        assert(piece@ =~= seq![c]);
        out.append(piece);
        i += 1;
    }
    assert(s@.skip(n as int) =~= Seq::<char>::empty());
    out.append("\"");
}

/// The bash script that runs the wrapper `e`: it exports `WORKSPACE="<workspace>"`
/// and then execs `"<target>" "<arg>".. "$@"`.
pub fn wrapper_script(e: &WrapperEntry) -> (r: String)
    ensures
        r@ == wrapper_script_text(*e),
{
    let mut out = String::from_str("#!/bin/bash\nexport WORKSPACE=");
    push_dq_word(&mut out, e.workspace.as_str());
    out.append("\nexec ");
    push_dq_word(&mut out, e.target_bin.as_str());
    let ghost head = out@;
    let ghost args = entry_args(*e);
    let mut k: usize = 0;
    assert(args.take(0) =~= Seq::<Seq<char>>::empty());
    proof {
        reveal_strlit(" ");
    }
    while k < e.args.len()
        invariant
            k <= e.args@.len(),
            args == entry_args(*e),
            " "@ == seq![' '],
            out@ == head + quoted_args(args.take(k as int)),
        decreases e.args@.len() - k,
    {
        out.append(" ");
        push_dq_word(&mut out, e.args[k].as_str());
        assert(args.take(k + 1).drop_last() =~= args.take(k as int));
        assert(args[k as int] == e.args@[k as int]@);
        k += 1;
    }
    assert(args.take(e.args@.len() as int) =~= args);
    out.append(" \"$@\"\n");
    out
}

} // verus!
