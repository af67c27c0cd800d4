use vstd::prelude::*;

use crate::config::{HexColor, Workspace};

verus! {

/// `l` without one trailing carriage return, if it has one.
pub open spec fn strip_cr(l: Seq<char>) -> Seq<char> {
    if l.len() > 0 && l.last() == '\r' {
        l.drop_last()
    } else {
        l
    }
}

/// The position of the first `\n` in `s`, or its length where there is none.
pub open spec fn first_newline(s: Seq<char>) -> nat
    decreases s.len(),
{
    if s.len() == 0 {
        0
    } else if s[0] == '\n' {
        0
    } else {
        1 + first_newline(s.drop_first())
    }
}

pub proof fn lemma_first_newline_bound(s: Seq<char>)
    ensures
        first_newline(s) <= s.len(),
    decreases s.len(),
{
    if s.len() > 0 && s[0] != '\n' {
        lemma_first_newline_bound(s.drop_first());
    }
}

/// The lines of `s`, as `str::lines` gives them: `s` split at each `\n`, a
/// `\r` just before a `\n` dropped with it, and no empty line after a final `\n`.
pub open spec fn text_lines(s: Seq<char>) -> Seq<Seq<char>>
    decreases s.len(),
{
    if s.len() == 0 {
        seq![]
    } else {
        let k = first_newline(s);
        proof {
            lemma_first_newline_bound(s);
        }
        if k == s.len() {
            seq![s]
        } else {
            seq![strip_cr(s.take(k as int))] + text_lines(s.skip((k + 1) as int))
        }
    }
}

/// Each line of `ls` followed by `\n`, in order.
pub open spec fn terminated(ls: Seq<Seq<char>>) -> Seq<char>
    decreases ls.len(),
{
    if ls.len() == 0 {
        seq![]
    } else {
        terminated(ls.drop_last()) + ls.last() + seq!['\n']
    }
}

/// The line `prefix` followed by the color, where the color is given.
pub open spec fn color_line(prefix: Seq<char>, color: Option<HexColor>) -> Seq<Seq<char>> {
    match color {
        Some(c) => seq![prefix + c@],
        None => seq![],
    }
}

/// The lines of the Ghostty config for `ws`: a header naming the workspace,
/// the include of the base config, the title, the theme colors that are set,
/// then the lines of the extra config.
pub open spec fn config_lines(base_config_path: Seq<char>, ws: Workspace) -> Seq<Seq<char>> {
    seq![
        "# Ghostty Workspace: "@ + ws.name@,
        "# Managed by Nix (blackmatter.components.ghostty.workspaces)"@,
        "config-file = "@ + base_config_path,
        "title = "@ + ws.display_name@,
    ] + color_line("cursor-color = "@, ws.theme.cursor_color) + color_line(
        "selection-background = "@,
        ws.theme.selection_background,
    ) + color_line("background = "@, ws.theme.background) + text_lines(ws.extra_config@)
}

/// The text of the Ghostty config for `ws`.
pub open spec fn config_text(base_config_path: Seq<char>, ws: Workspace) -> Seq<char> {
    terminated(config_lines(base_config_path, ws))
}

proof fn lemma_terminated_push(ls: Seq<Seq<char>>, l: Seq<char>)
    ensures
        terminated(ls.push(l)) == terminated(ls) + l + seq!['\n'],
{
    assert(ls.push(l).drop_last() =~= ls);
}

/// Every generated text ends with a newline after its last line.
pub proof fn lemma_terminated_ends_with_newline(ls: Seq<Seq<char>>)
    requires
        ls.len() > 0,
    ensures
        terminated(ls).len() > 0,
        terminated(ls).last() == '\n',
{
}

/// The generated config ends with a newline.
pub proof fn lemma_config_ends_with_newline(base_config_path: Seq<char>, ws: Workspace)
    ensures
        config_text(base_config_path, ws).len() > 0,
        config_text(base_config_path, ws).last() == '\n',
{
    lemma_terminated_ends_with_newline(config_lines(base_config_path, ws));
}

proof fn lemma_first_newline_at(t: Seq<char>, m: int)
    requires
        0 <= m <= t.len(),
        forall|k: int| 0 <= k < m ==> t[k] != '\n',
        m == t.len() || t[m] == '\n',
    ensures
        first_newline(t) == m,
    decreases m,
{
    if m > 0 {
        let u = t.drop_first();
        assert forall|k: int| 0 <= k < m - 1 implies u[k] != '\n' by {
            assert(u[k] == t[k + 1]);
        }
        if m - 1 < u.len() {
            assert(u[m - 1] == t[m]);
        }
        lemma_first_newline_at(u, m - 1);
    }
}

proof fn lemma_first_newline_facts(s: Seq<char>)
    ensures
        first_newline(s) <= s.len(),
        first_newline(s) < s.len() ==> s[first_newline(s) as int] == '\n',
        forall|j: int| 0 <= j < first_newline(s) ==> s[j] != '\n',
    decreases s.len(),
{
    if s.len() > 0 && s[0] != '\n' {
        let t = s.drop_first();
        lemma_first_newline_facts(t);
        assert forall|j: int| 0 <= j < first_newline(s) implies s[j] != '\n' by {
            if j > 0 {
                assert(s[j] == t[j - 1]);
            }
        }
    }
}

/// Terminating the lines of two lists one after the other gives the two
/// texts one after the other.
pub proof fn lemma_terminated_concat(a: Seq<Seq<char>>, b: Seq<Seq<char>>)
    ensures
        terminated(a + b) == terminated(a) + terminated(b),
    decreases b.len(),
{
    if b.len() == 0 {
        assert(a + b =~= a);
    } else {
        lemma_terminated_concat(a, b.drop_last());
        assert((a + b).drop_last() =~= a + b.drop_last());
        assert((a + b).last() == b.last());
    }
}

proof fn lemma_terminated_single(l: Seq<char>)
    ensures
        terminated(seq![l]) == l + seq!['\n'],
{
    let e = Seq::<Seq<char>>::empty();
    assert(terminated(e) == Seq::<char>::empty());
    assert(seq![l].drop_last() =~= e);
    assert(Seq::<char>::empty() + l =~= l);
}

/// `s` as it reads once every line is followed by a newline: `s` itself when
/// it is empty or ends with a newline, else `s` with a newline added.
pub open spec fn newline_terminated(s: Seq<char>) -> Seq<char> {
    if s.len() == 0 || s.last() == '\n' {
        s
    } else {
        s.push('\n')
    }
}

/// Splitting text without carriage returns into lines and terminating each
/// line gives the text back, with a final newline where it had none.
pub proof fn lemma_lines_roundtrip(s: Seq<char>)
    requires
        forall|i: int| 0 <= i < s.len() ==> s[i] != '\r',
    ensures
        terminated(text_lines(s)) == newline_terminated(s),
    decreases s.len(),
{
    if s.len() > 0 {
        lemma_first_newline_facts(s);
        let k = first_newline(s) as int;
        if k == s.len() {
            assert(text_lines(s) =~= seq![s]);
            assert(seq![s].drop_last() =~= Seq::<Seq<char>>::empty());
            assert(s[s.len() - 1] != '\n');
            lemma_terminated_single(s);
            assert(s + seq!['\n'] =~= s.push('\n'));
        } else {
            let head = s.take(k);
            let t = s.skip(k + 1);
            assert forall|i: int| 0 <= i < t.len() implies t[i] != '\r' by {
                assert(t[i] == s[k + 1 + i]);
            }
            lemma_lines_roundtrip(t);
            if head.len() > 0 {
                assert(head.last() == s[k - 1]);
            }
            assert(strip_cr(head) == head);
            assert(text_lines(s) == seq![head] + text_lines(t));
            lemma_terminated_concat(seq![head], text_lines(t));
            assert(seq![head].drop_last() =~= Seq::<Seq<char>>::empty());
            lemma_terminated_single(head);
            assert(s =~= head + seq!['\n'] + t);
            if t.len() > 0 {
                assert(s.last() == t.last());
                if t.last() != '\n' {
                    assert(s.push('\n') =~= head + seq!['\n'] + t.push('\n'));
                } else {
                    assert(terminated(text_lines(s)) =~= head + seq!['\n'] + t);
                }
            } else {
                assert(s.last() == '\n');
                assert(terminated(text_lines(t)) =~= Seq::<char>::empty());
                assert(terminated(text_lines(s)) =~= head + seq!['\n']);
            }
        }
    }
}

/// The extra config is appended verbatim: after the fixed lines and the theme
/// colors, the config holds the extra config as written (with a final newline
/// where it had none), provided it holds no carriage return.
pub proof fn lemma_extra_config_verbatim(base_config_path: Seq<char>, ws: Workspace)
    requires
        forall|i: int| 0 <= i < ws.extra_config@.len() ==> ws.extra_config@[i] != '\r',
    ensures
        config_text(base_config_path, ws) == terminated(
            config_lines(base_config_path, ws).take(
                config_lines(base_config_path, ws).len() - text_lines(ws.extra_config@).len(),
            ),
        ) + newline_terminated(ws.extra_config@),
{
    let all = config_lines(base_config_path, ws);
    let extra = text_lines(ws.extra_config@);
    let fixed = all.take(all.len() - extra.len());
    assert(all =~= fixed + extra);
    lemma_terminated_concat(fixed, extra);
    lemma_lines_roundtrip(ws.extra_config@);
}

/// Appends `text` and a newline to `out`.
fn push_line(out: &mut String, text: &str)
    ensures
        final(out)@ == old(out)@ + text@ + seq!['\n'],
{
    out.append(text);
    proof {
        reveal_strlit("\n");
    }
    out.append("\n");
}

/// Appends `prefix` and the color to `out`, as one line, where the color is set.
fn push_color_line(
    out: &mut String,
    prefix: &str,
    color: &Option<HexColor>,
    Ghost(lines): Ghost<Seq<Seq<char>>>,
)
    requires
        old(out)@ == terminated(lines),
    ensures
        final(out)@ == terminated(lines + color_line(prefix@, *color)),
{
    match color {
        Some(c) => {
            let mut line = String::from_str(prefix);
            line.append(c.as_str());
            push_line(out, line.as_str());
            proof {
                lemma_terminated_push(lines, line@);
                assert(lines + color_line(prefix@, *color) =~= lines.push(line@));
            }
        },
        None => {
            assert(lines + color_line(prefix@, *color) =~= lines);
        },
    }
}

/// Appends the lines of `extra` to `out`, each followed by a newline.
fn push_text_lines(out: &mut String, extra: &str, Ghost(lines): Ghost<Seq<Seq<char>>>)
    requires
        old(out)@ == terminated(lines),
    ensures
        final(out)@ == terminated(lines + text_lines(extra@)),
{
    let n = extra.unicode_len();
    let ghost s = extra@;
    let mut start: usize = 0;
    let mut i: usize = 0;
    let ghost mut done: Seq<Seq<char>> = lines;
    assert(s.skip(0) =~= s);
    assert(lines + text_lines(s) =~= done + text_lines(s.skip(0)));
    while i < n
        invariant
            start <= i <= n,
            n == s.len(),
            s == extra@,
            out@ == terminated(done),
            lines + text_lines(s) == done + text_lines(s.skip(start as int)),
            forall|k: int| start <= k < i ==> s[k] != '\n',
        decreases n - i,
    {
        if extra.get_char(i) == '\n' {
            let ghost t = s.skip(start as int);
            proof {
                assert forall|k: int| 0 <= k < i - start implies t[k] != '\n' by {
                    assert(t[k] == s[start + k]);
                }
                assert(t[i - start] == s[i as int]);
                lemma_first_newline_at(t, i - start);
                assert(t.skip(i - start + 1) =~= s.skip(i + 1));
                assert(t.take(i - start) =~= s.subrange(start as int, i as int));
            }
            let end = if i > start && extra.get_char(i - 1) == '\r' {
                i - 1
            } else {
                i
            };
            let piece = extra.substring_char(start, end);
            assert(piece@ =~= strip_cr(s.subrange(start as int, i as int)));
            push_line(out, piece);
            proof {
                lemma_terminated_push(done, piece@);
                assert(done + text_lines(t) =~= done.push(piece@) + text_lines(s.skip(i + 1)));
                done = done.push(piece@);
            }
            start = i + 1;
        }
        i += 1;
    }
    if start < n {
        let ghost t = s.skip(start as int);
        proof {
            assert forall|k: int| 0 <= k < t.len() implies t[k] != '\n' by {
                assert(t[k] == s[start + k]);
            }
            lemma_first_newline_at(t, t.len() as int);
        }
        let piece = extra.substring_char(start, n);
        assert(piece@ =~= t);
        push_line(out, piece);
        proof {
            lemma_terminated_push(done, piece@);
            assert(done + text_lines(t) =~= done.push(piece@));
        }
    } else {
        assert(s.skip(start as int) =~= Seq::<char>::empty());
        assert(done + text_lines(s.skip(start as int)) =~= done);
    }
}

/// Generates the Ghostty config file for the workspace `ws`, including the
/// base config at `base_config_path`.
///
/// The output is, one per line and each followed by a newline:
/// ```text
/// # Ghostty Workspace: <name>
/// # Managed by Nix (blackmatter.components.ghostty.workspaces)
/// config-file = <base_config_path>
/// title = <display name>
/// cursor-color = <color>            (where set)
/// selection-background = <color>    (where set)
/// background = <color>              (where set)
/// <each line of the extra config>
/// ```
pub fn generate_config(base_config_path: &str, ws: &Workspace) -> (r: String)
    ensures
        r@ == config_text(base_config_path@, *ws),
{
    let mut out = String::new();
    let mut line = String::from_str("# Ghostty Workspace: ");
    line.append(ws.name.as_str());
    push_line(&mut out, line.as_str());
    push_line(&mut out, "# Managed by Nix (blackmatter.components.ghostty.workspaces)");
    let mut line = String::from_str("config-file = ");
    line.append(base_config_path);
    push_line(&mut out, line.as_str());
    let mut line = String::from_str("title = ");
    line.append(ws.display_name.as_str());
    push_line(&mut out, line.as_str());
    let ghost header = seq![
        "# Ghostty Workspace: "@ + ws.name@,
        "# Managed by Nix (blackmatter.components.ghostty.workspaces)"@,
        "config-file = "@ + base_config_path@,
        "title = "@ + ws.display_name@,
    ];
    proof {
        let e = Seq::<Seq<char>>::empty();
        lemma_terminated_push(e, header[0]);
        lemma_terminated_push(e.push(header[0]), header[1]);
        lemma_terminated_push(e.push(header[0]).push(header[1]), header[2]);
        lemma_terminated_push(e.push(header[0]).push(header[1]).push(header[2]), header[3]);
        assert(e.push(header[0]).push(header[1]).push(header[2]).push(header[3]) =~= header);
    }
    let ghost l1 = header + color_line("cursor-color = "@, ws.theme.cursor_color);
    push_color_line(&mut out, "cursor-color = ", &ws.theme.cursor_color, Ghost(header));
    let ghost l2 = l1 + color_line("selection-background = "@, ws.theme.selection_background);
    push_color_line(&mut out, "selection-background = ", &ws.theme.selection_background, Ghost(l1));
    let ghost l3 = l2 + color_line("background = "@, ws.theme.background);
    push_color_line(&mut out, "background = ", &ws.theme.background, Ghost(l2));
    push_text_lines(&mut out, ws.extra_config.as_str(), Ghost(l3));
    out
}

/// `needle` occurs in `hay` as a contiguous run.
pub open spec fn contains_text(hay: Seq<char>, needle: Seq<char>) -> bool {
    exists|p: int| 0 <= p && p + needle.len() <= hay.len() && #[trigger] hay.subrange(p, p + needle.len()) == needle
}

proof fn lemma_terminated_holds_line(a: Seq<Seq<char>>, l: Seq<char>, b: Seq<Seq<char>>)
    requires
        a.len() > 0,
    ensures
        contains_text(terminated(a + seq![l] + b), seq!['\n'] + l + seq!['\n']),
{
    lemma_terminated_concat(a + seq![l], b);
    lemma_terminated_concat(a, seq![l]);
    lemma_terminated_single(l);
    let ta = terminated(a);
    let whole = terminated(a + seq![l] + b);
    assert(whole == ta + (l + seq!['\n']) + terminated(b));
    assert(ta.last() == '\n');
    let p = ta.len() - 1;
    let needle = seq!['\n'] + l + seq!['\n'];
    assert(whole.subrange(p, p + needle.len()) =~= needle);
}

/// Every line the config is made of appears in the text on a line of its own.
pub proof fn lemma_config_holds_its_lines(base_config_path: Seq<char>, ws: Workspace, i: int)
    requires
        1 <= i < config_lines(base_config_path, ws).len(),
    ensures
        contains_text(
            config_text(base_config_path, ws),
            seq!['\n'] + config_lines(base_config_path, ws)[i] + seq!['\n'],
        ),
{
    let ls = config_lines(base_config_path, ws);
    assert(ls =~= ls.take(i) + seq![ls[i]] + ls.skip(i + 1));
    lemma_terminated_holds_line(ls.take(i), ls[i], ls.skip(i + 1));
}

/// Each theme color that is set gets a line of its own in the config, whether or
/// not the other colors are set: `cursor-color = <c>`, `selection-background = <c>`,
/// `background = <c>`. The title and the base config include are always there.
pub proof fn lemma_config_color_lines(base_config_path: Seq<char>, ws: Workspace)
    ensures
        contains_text(
            config_text(base_config_path, ws),
            seq!['\n'] + "config-file = "@ + base_config_path + seq!['\n'],
        ),
        contains_text(
            config_text(base_config_path, ws),
            seq!['\n'] + "title = "@ + ws.display_name@ + seq!['\n'],
        ),
        ws.theme.cursor_color matches Some(c) ==> contains_text(
            config_text(base_config_path, ws),
            seq!['\n'] + "cursor-color = "@ + c@ + seq!['\n'],
        ),
        ws.theme.selection_background matches Some(c) ==> contains_text(
            config_text(base_config_path, ws),
            seq!['\n'] + "selection-background = "@ + c@ + seq!['\n'],
        ),
        ws.theme.background matches Some(c) ==> contains_text(
            config_text(base_config_path, ws),
            seq!['\n'] + "background = "@ + c@ + seq!['\n'],
        ),
{
    let ls = config_lines(base_config_path, ws);
    let cl = color_line("cursor-color = "@, ws.theme.cursor_color);
    let sl = color_line("selection-background = "@, ws.theme.selection_background);
    assert(ls[2] == "config-file = "@ + base_config_path);
    lemma_config_holds_its_lines(base_config_path, ws, 2);
    assert(seq!['\n'] + ls[2] + seq!['\n'] =~= seq!['\n'] + "config-file = "@ + base_config_path
        + seq!['\n']);
    assert(ls[3] == "title = "@ + ws.display_name@);
    lemma_config_holds_its_lines(base_config_path, ws, 3);
    assert(seq!['\n'] + ls[3] + seq!['\n'] =~= seq!['\n'] + "title = "@ + ws.display_name@
        + seq!['\n']);
    if let Some(c) = ws.theme.cursor_color {
        assert(ls[4] == "cursor-color = "@ + c@);
        lemma_config_holds_its_lines(base_config_path, ws, 4);
        assert(seq!['\n'] + ls[4] + seq!['\n'] =~= seq!['\n'] + "cursor-color = "@ + c@
            + seq!['\n']);
    }
    if let Some(c) = ws.theme.selection_background {
        let at: int = 4 + cl.len() as int;
        assert(ls[at] == "selection-background = "@ + c@);
        lemma_config_holds_its_lines(base_config_path, ws, at);
        assert(seq!['\n'] + ls[at] + seq!['\n'] =~= seq!['\n'] + "selection-background = "@ + c@
            + seq!['\n']);
    }
    if let Some(c) = ws.theme.background {
        let at: int = 4 + cl.len() as int + sl.len() as int;
        assert(ls[at] == "background = "@ + c@);
        lemma_config_holds_its_lines(base_config_path, ws, at);
        assert(seq!['\n'] + ls[at] + seq!['\n'] =~= seq!['\n'] + "background = "@ + c@
            + seq!['\n']);
    }
}

} // verus!
