//! The text of the shell integration: the test by which the shell function
//! tells a subcommand from a keyword, and the form in which a PowerShell
//! script survives being joined into one line.

use crate::text::{
    chars_eq, contains_in, contains_sub, copy_range, ends_with, push_from, push_str, split,
    split_chars, starts_with, str_chars, string_of, trim, trim_bounds, views,
};
use vstd::prelude::*;

verus! {

/// The family of a shell.
#[derive(Debug, Clone, Copy, PartialEq, Eq, Structural)]
pub enum ShellKind {
    /// Bash, Zsh and their like.
    Posix,
    /// PowerShell.
    PowerShell,
}

/// The texts `parts`, with `sep` between each two.
pub open spec fn joined(parts: Seq<Seq<char>>, sep: Seq<char>) -> Seq<char>
    decreases parts.len(),
{
    if parts.len() == 0 {
        Seq::empty()
    } else if parts.len() == 1 {
        parts[0]
    } else {
        joined(parts.drop_last(), sep) + sep + parts.last()
    }
}

/// The test whether the first argument is the subcommand `command`.
pub open spec fn command_check(command: Seq<char>, kind: ShellKind) -> Seq<char> {
    match kind {
        ShellKind::Posix => "[[ \"$1\" = \""@ + command + "\" ]]"@,
        ShellKind::PowerShell => "$args[0] -eq '"@ + command + "'"@,
    }
}

/// The test whether the first argument is an option.
pub open spec fn option_check(kind: ShellKind) -> Seq<char> {
    match kind {
        ShellKind::Posix => "[[ \"$1\" == -* ]]"@,
        ShellKind::PowerShell => "$args[0].StartsWith('-')"@,
    }
}

/// The tests for the subcommands `commands`, for `help`, and for an option.
pub open spec fn checks(commands: Seq<Seq<char>>, kind: ShellKind) -> Seq<Seq<char>> {
    Seq::new(
        commands.len() + 2,
        |i: int|
            if i < commands.len() {
                command_check(commands[i], kind)
            } else if i == commands.len() {
                command_check("help"@, kind)
            } else {
                option_check(kind)
            },
    )
}

/// The condition under which the shell function hands its arguments to the
/// program as they are: the first argument is one of the subcommands, `help`,
/// or an option.
pub open spec fn if_check(commands: Seq<Seq<char>>, kind: ShellKind) -> Seq<char> {
    match kind {
        ShellKind::Posix => joined(checks(commands, kind), " || "@),
        ShellKind::PowerShell => "($args.Count -ge 1) -and ("@ + joined(
            checks(commands, kind),
            " -or "@,
        ) + ")"@,
    }
}

/// The texts of a vector of strings.
pub open spec fn texts(v: Seq<String>) -> Seq<Seq<char>> {
    Seq::new(v.len(), |i: int| v[i]@)
}

fn push_check(out: &mut Vec<char>, command: &str, kind: ShellKind)
    ensures
        final(out)@ == old(out)@ + command_check(command@, kind),
{
    let ghost before = out@;
    match kind {
        ShellKind::Posix => {
            push_str(out, "[[ \"$1\" = \"");
            push_str(out, command);
            push_str(out, "\" ]]");
            assert(out@ =~= before + ("[[ \"$1\" = \""@ + command@ + "\" ]]"@));
        },
        ShellKind::PowerShell => {
            push_str(out, "$args[0] -eq '");
            push_str(out, command);
            push_str(out, "'");
            assert(out@ =~= before + ("$args[0] -eq '"@ + command@ + "'"@));
        },
    }
}

fn separator(kind: ShellKind) -> (r: &'static str)
    ensures
        r@ == match kind {
            ShellKind::Posix => " || "@,
            ShellKind::PowerShell => " -or "@,
        },
{
    match kind {
        ShellKind::Posix => " || ",
        ShellKind::PowerShell => " -or ",
    }
}

/// The condition under which the shell function hands its arguments to the
/// program as they are.
pub fn if_check_statement(commands: &Vec<String>, kind: ShellKind) -> (r: String)
    ensures
        r@ == if_check(texts(commands@), kind),
{
    let ghost names = texts(commands@);
    let ghost all = checks(names, kind);
    let sep = separator(kind);
    let mut out: Vec<char> = Vec::new();
    let mut i: usize = 0;
    assert(all.take(0) =~= Seq::<Seq<char>>::empty());
    while i < commands.len()
        invariant
            i <= commands.len(),
            names == texts(commands@),
            all == checks(names, kind),
            sep@ == match kind {
                ShellKind::Posix => " || "@,
                ShellKind::PowerShell => " -or "@,
            },
            out@ == joined(all.take(i as int), sep@) + if i > 0 {
                sep@
            } else {
                Seq::<char>::empty()
            },
        decreases commands.len() - i,
    {
        let ghost before = out@;
        proof {
            assert(all.take(i + 1).drop_last() =~= all.take(i as int));
            assert(all.take(i + 1).last() == command_check(commands@[i as int]@, kind));
            assert(names[i as int] == commands@[i as int]@);
            if i == 0 {
                assert(all.take(1)[0] == all[0]);
            }
        }
        push_check(&mut out, commands[i].as_str(), kind);
        assert(out@ =~= joined(all.take(i + 1), sep@));
        push_str(&mut out, sep);
        i += 1;
    }
    let ghost n = commands.len() as int;
    proof {
        assert(all.take(n + 1).drop_last() =~= all.take(n));
        assert(all.take(n + 1).last() == command_check("help"@, kind));
        assert(all.take(n + 2) =~= all);
        assert(all.drop_last() =~= all.take(n + 1));
        assert(all.last() == option_check(kind));
        if n == 0 {
            assert(all.take(1)[0] == all[0]);
        }
    }
    push_check(&mut out, "help", kind);
    assert(out@ =~= joined(all.take(n + 1), sep@));
    push_str(&mut out, sep);
    match kind {
        ShellKind::Posix => {
            push_str(&mut out, "[[ \"$1\" == -* ]]");
            assert(out@ =~= joined(all, sep@));
            string_of(&out)
        },
        ShellKind::PowerShell => {
            push_str(&mut out, "$args[0].StartsWith('-')");
            assert(out@ =~= joined(all, sep@));
            let mut whole = str_chars("($args.Count -ge 1) -and (");
            assert(out@.skip(0) =~= out@);
            push_from(&mut whole, &out, 0);
            push_str(&mut whole, ")");
            string_of(&whole)
        },
    }
}

/// `s` without one carriage return at its end.
pub open spec fn strip_cr(s: Seq<char>) -> Seq<char> {
    if s.len() > 0 && s.last() == '\r' {
        s.drop_last()
    } else {
        s
    }
}

/// The lines of a text. A line ends with a line feed, or with a carriage
/// return and a line feed; the last line need not be ended, and one that is
/// not keeps a carriage return at its end.
pub open spec fn lines_of(text: Seq<char>) -> Seq<Seq<char>> {
    let parts = split(text, seq!['\n']);
    let ended = Seq::new((parts.len() - 1) as nat, |i: int| strip_cr(parts[i]));
    if parts.last().len() == 0 {
        ended
    } else {
        ended.push(parts.last())
    }
}

/// The lines of a text.
pub fn lines(text: &str) -> (r: Vec<Vec<char>>)
    ensures
        views(r@) == lines_of(text@),
{
    let seps: Vec<char> = vec!['\n'];
    assert(seps@ == seq!['\n']);
    let parts = split_chars(&str_chars(text), &seps);
    let ghost ps = views(parts@);
    let ghost ended = Seq::new((ps.len() - 1) as nat, |i: int| strip_cr(ps[i]));
    let mut out: Vec<Vec<char>> = Vec::new();
    let n = parts.len();
    let mut i: usize = 0;
    while i + 1 < n
        invariant
            n == parts.len(),
            n >= 1,
            i + 1 <= n,
            ps == views(parts@),
            out.len() == i,
            forall|j: int| 0 <= j < i ==> (#[trigger] out@[j])@ == strip_cr(ps[j]),
        decreases n - i,
    {
        let part = &parts[i];
        assert(ps[i as int] == part@);
        let line = if part.len() > 0 && part[part.len() - 1] == '\r' {
            copy_range(part, 0, part.len() - 1)
        } else {
            assert(part@.subrange(0, part.len() as int) =~= part@);
            copy_range(part, 0, part.len())
        };
        out.push(line);
        i += 1;
    }
    assert(views(out@) =~= ended) by {
        assert forall|j: int| 0 <= j < out.len() implies views(out@)[j] == ended[j] by {
            assert(out@[j]@ == strip_cr(ps[j]));
        }
    }
    let last = &parts[n - 1];
    assert(ps[n - 1] == last@);
    assert(ps.last() == last@);
    if last.len() > 0 {
        assert(last@.subrange(0, last.len() as int) =~= last@);
        let ghost before = views(out@);
        out.push(copy_range(last, 0, last.len()));
        assert(views(out@) =~= before.push(last@));
    }
    out
}

/// How often `c` stands in `s`.
pub open spec fn count_of(s: Seq<char>, c: char) -> nat
    decreases s.len(),
{
    if s.len() == 0 {
        0
    } else {
        count_of(s.drop_last(), c) + if s.last() == c {
            1nat
        } else {
            0nat
        }
    }
}

fn count_char(v: &Vec<char>, c: char) -> (n: usize)
    ensures
        n == count_of(v@, c),
{
    let mut n: usize = 0;
    let mut i: usize = 0;
    assert(v@.take(0) =~= Seq::<char>::empty());
    while i < v.len()
        invariant
            i <= v.len(),
            n == count_of(v@.take(i as int), c),
            n <= i,
        decreases v.len() - i,
    {
        proof {
            assert(v@.take(i + 1).drop_last() =~= v@.take(i as int));
            assert(v@.take(i + 1).last() == v@[i as int]);
        }
        if v[i] == c {
            n += 1;
        }
        i += 1;
    }
    assert(v@.take(i as int) =~= v@);
    n
}

/// Whether `s` ends with the character `c`.
pub open spec fn ends_in(s: Seq<char>, c: char) -> bool {
    s.len() > 0 && s.last() == c
}

/// Whether `s` begins with the character `c`.
pub open spec fn begins_in(s: Seq<char>, c: char) -> bool {
    s.len() > 0 && s[0] == c
}

/// Whether the trimmed line `t` opens a `param(` block.
pub open spec fn opens_param_block(t: Seq<char>) -> bool {
    "param("@.is_prefix_of(t) || contains_sub(t, " param("@)
}

/// Whether the statement of the trimmed line `t` goes on in the trimmed line
/// `next`: a closing brace goes on with `catch`, `finally`, `elseif` or
/// `else`; and any line goes on with a line that begins with `)`, `}`, `-or`
/// or `-and` unless that line is the closing brace of a block alone.
pub open spec fn goes_on(t: Seq<char>, next: Seq<char>) -> bool {
    let closing_brace_only = next == "}"@ || next == "};"@;
    let control_flow = ends_in(t, '}') && ("catch"@.is_prefix_of(next) || "finally"@.is_prefix_of(
        next,
    ) || "elseif"@.is_prefix_of(next) || "else"@.is_prefix_of(next));
    control_flow || (!closing_brace_only && (begins_in(next, ')') || begins_in(next, '}')
        || "-or"@.is_prefix_of(next) || "-and"@.is_prefix_of(next)))
}

/// Whether the trimmed line `t` ends a statement, so that a semicolon is to
/// follow it; `next` is the trimmed line after it, if there is one.
pub open spec fn needs_semicolon(t: Seq<char>, next: Option<Seq<char>>) -> bool {
    &&& !(next matches Some(n) && goes_on(t, n))
    &&& !begins_in(t, '#')
    &&& !ends_in(t, '{')
    &&& !ends_in(t, '(')
    &&& !ends_in(t, ',')
    &&& !ends_in(t, '|')
    &&& !ends_in(t, '\\')
    &&& !"-or"@.is_suffix_of(t)
    &&& !"-and"@.is_suffix_of(t)
}

/// What is kept in mind from line to line.
pub struct LineState {
    /// Whether the line lies in a `param(` block.
    pub in_param_block: bool,
    /// How many parentheses of the block are open; 0 outside a block.
    pub depth: nat,
    /// The `using namespace` lines that were met.
    pub seen: Set<Seq<char>>,
}

/// The state before the first line.
pub open spec fn first_state() -> LineState {
    LineState { in_param_block: false, depth: 0, seen: Set::empty() }
}

/// What becomes of the line `line` in the state `state`, and the state after
/// it; `next` is the line after it, if there is one.
///
/// A blank line stays. A `using namespace` line that was met before is
/// dropped. A line of a `param(` block stays; the block begins with the line
/// that opens it and ends with the line at whose end no parenthesis of the
/// block is open. Any other line stays, with a semicolon where it ends a
/// statement.
pub open spec fn step(state: LineState, line: Seq<char>, next: Option<Seq<char>>) -> (
    Option<Seq<char>>,
    LineState,
) {
    let t = trim(line);
    let is_using = "using namespace "@.is_prefix_of(t);
    if t.len() == 0 {
        (Some(line), state)
    } else if is_using && state.seen.contains(t) {
        (None, state)
    } else {
        let seen = if is_using {
            state.seen.insert(t)
        } else {
            state.seen
        };
        let opened = opens_param_block(t);
        if state.in_param_block || opened {
            let before: int = if opened {
                0
            } else {
                state.depth as int
            };
            let depth = before + count_of(t, '(') - count_of(t, ')');
            if depth > 0 {
                (Some(line), LineState { in_param_block: true, depth: depth as nat, seen })
            } else {
                (Some(line), LineState { in_param_block: false, depth: 0, seen })
            }
        } else {
            let trimmed_next = match next {
                Some(n) => Some(trim(n)),
                None => None,
            };
            let out = if needs_semicolon(t, trimmed_next) {
                line.push(';')
            } else {
                line
            };
            (Some(out), LineState { in_param_block: false, depth: 0, seen })
        }
    }
}

/// What becomes of the lines `lines[i..]`, beginning in the state `state`.
pub open spec fn finished_from(lines: Seq<Seq<char>>, i: int, state: LineState) -> Seq<Seq<char>>
    decreases lines.len() - i,
{
    if i < 0 || i >= lines.len() {
        Seq::empty()
    } else {
        let next = if i + 1 < lines.len() {
            Some(lines[i + 1])
        } else {
            None
        };
        let (out, after) = step(state, lines[i], next);
        let rest = finished_from(lines, i + 1, after);
        match out {
            Some(l) => seq![l] + rest,
            None => rest,
        }
    }
}

/// The PowerShell script `script` in the form that works when its lines are
/// joined by spaces: every statement ends with a semicolon, and no `using
/// namespace` line stands twice.
pub open spec fn finished(script: Seq<char>) -> Seq<char> {
    joined(finished_from(lines_of(script), 0, first_state()), seq!['\n'])
}

fn trimmed(v: &Vec<char>) -> (r: Vec<char>)
    ensures
        r@ == trim(v@),
{
    let (lo, hi) = trim_bounds(v);
    copy_range(v, lo, hi)
}

fn has_prefix(v: &Vec<char>, prefix: &str) -> (r: bool)
    ensures
        r == prefix@.is_prefix_of(v@),
{
    starts_with(v, &str_chars(prefix))
}

fn has_suffix(v: &Vec<char>, suffix: &str) -> (r: bool)
    ensures
        r == suffix@.is_suffix_of(v@),
{
    ends_with(v, &str_chars(suffix))
}

fn is_text(v: &Vec<char>, text: &str) -> (r: bool)
    ensures
        r == (v@ == text@),
{
    chars_eq(v, &str_chars(text))
}

fn last_is(v: &Vec<char>, c: char) -> (r: bool)
    ensures
        r == ends_in(v@, c),
{
    v.len() > 0 && v[v.len() - 1] == c
}

fn first_is(v: &Vec<char>, c: char) -> (r: bool)
    ensures
        r == begins_in(v@, c),
{
    v.len() > 0 && v[0] == c
}

fn does_go_on(t: &Vec<char>, next: &Vec<char>) -> (r: bool)
    ensures
        r == goes_on(t@, next@),
{
    let closing_brace_only = is_text(next, "}") || is_text(next, "};");
    let control_flow = last_is(t, '}') && (has_prefix(next, "catch") || has_prefix(next, "finally")
        || has_prefix(next, "elseif") || has_prefix(next, "else"));
    control_flow || (!closing_brace_only && (first_is(next, ')') || first_is(next, '}')
        || has_prefix(next, "-or") || has_prefix(next, "-and")))
}

fn ends_statement(t: &Vec<char>, next: Option<&Vec<char>>) -> (r: bool)
    ensures
        r == needs_semicolon(
            t@,
            match next {
                Some(n) => Some(n@),
                None => None,
            },
        ),
{
    let goes_on_next = match next {
        Some(n) => does_go_on(t, n),
        None => false,
    };
    !goes_on_next && !first_is(t, '#') && !last_is(t, '{') && !last_is(t, '(') && !last_is(t, ',')
        && !last_is(t, '|') && !last_is(t, '\\') && !has_suffix(t, "-or") && !has_suffix(t, "-and")
}

/// The set of the texts of `v`.
pub open spec fn text_set(v: Seq<Vec<char>>) -> Set<Seq<char>> {
    Set::new(|t: Seq<char>| exists|i: int| 0 <= i < v.len() && (#[trigger] v[i])@ == t)
}

fn was_seen(seen: &Vec<Vec<char>>, t: &Vec<char>) -> (r: bool)
    ensures
        r == text_set(seen@).contains(t@),
{
    let mut i: usize = 0;
    while i < seen.len()
        invariant
            i <= seen.len(),
            forall|j: int| 0 <= j < i ==> (#[trigger] seen@[j])@ != t@,
        decreases seen.len() - i,
    {
        if chars_eq(&seen[i], t) {
            return true;
        }
        i += 1;
    }
    false
}

/// The PowerShell script `script` in the form that works when its lines are
/// joined by spaces.
pub fn finish_powershell(script: &str) -> (r: String)
    ensures
        r@ == finished(script@),
{
    let all = lines(script);
    let ghost ls = views(all@);
    let mut out: Vec<char> = Vec::new();
    let mut wrote = false;
    let ghost mut done: Seq<Seq<char>> = Seq::empty();
    let mut in_param_block = false;
    let mut depth: u128 = 0;
    let mut seen: Vec<Vec<char>> = Vec::new();
    let mut i: usize = 0;
    assert(text_set(seen@) =~= Set::<Seq<char>>::empty());
    while i < all.len()
        invariant
            i <= all.len(),
            ls == views(all@),
            ls == lines_of(script@),
            depth <= i * usize::MAX,
            in_param_block || depth == 0,
            wrote == (done.len() > 0),
            out@ == joined(done, seq!['\n']),
            finished_from(ls, 0, first_state()) == done + finished_from(
                ls,
                i as int,
                LineState { in_param_block, depth: depth as nat, seen: text_set(seen@) },
            ),
        decreases all.len() - i,
    {
        let line = &all[i];
        let ghost state = LineState { in_param_block, depth: depth as nat, seen: text_set(seen@) };
        let ghost next = if i + 1 < ls.len() {
            Some(ls[i + 1])
        } else {
            None
        };
        let ghost old_done = done;
        let ghost old_seen = seen@;
        proof {
            assert(ls[i as int] == line@);
            assert((i + 1) * usize::MAX == i * usize::MAX + usize::MAX) by (nonlinear_arith);
        }
        let t = trimmed(line);
        let is_using = has_prefix(&t, "using namespace ");
        let mut keep: Option<Vec<char>> = None;
        if t.len() == 0 {
            assert(line@.subrange(0, line.len() as int) =~= line@);
            keep = Some(copy_range(line, 0, line.len()));
        } else if is_using && was_seen(&seen, &t) {
        } else {
            if is_using {
                seen.push(copy_range(&t, 0, t.len()));
                proof {
                    assert(t@.subrange(0, t.len() as int) =~= t@);
                    assert(text_set(seen@) =~= text_set(old_seen).insert(t@)) by {
                        assert forall|x: Seq<char>|
                            text_set(seen@).contains(x) <==> text_set(old_seen).insert(
                                t@,
                            ).contains(x) by {
                            if text_set(seen@).contains(x) {
                                let k = choose|k: int|
                                    0 <= k < seen@.len() && (#[trigger] seen@[k])@ == x;
                                if k < old_seen.len() {
                                    assert(old_seen[k]@ == x);
                                }
                            }
                            if text_set(old_seen).contains(x) {
                                let k = choose|k: int|
                                    0 <= k < old_seen.len() && (#[trigger] old_seen[k])@ == x;
                                assert(seen@[k]@ == x);
                            }
                            if x == t@ {
                                assert(seen@[old_seen.len() as int]@ == x);
                            }
                        }
                    }
                }
            }
            let opened = has_prefix(&t, "param(") || contains_in(&t, &str_chars(" param("));
            assert(line@.subrange(0, line.len() as int) =~= line@);
            let mut kept = copy_range(line, 0, line.len());
            if in_param_block || opened {
                let before: u128 = if opened {
                    0
                } else {
                    depth
                };
                let opens = count_char(&t, '(');
                let closes = count_char(&t, ')');
                if before + (opens as u128) > (closes as u128) {
                    in_param_block = true;
                    depth = before + (opens as u128) - (closes as u128);
                } else {
                    in_param_block = false;
                    depth = 0;
                }
            } else {
                let semicolon = if i + 1 < all.len() {
                    assert(ls[i + 1] == all@[i + 1]@);
                    let n = trimmed(&all[i + 1]);
                    ends_statement(&t, Some(&n))
                } else {
                    ends_statement(&t, None)
                };
                if semicolon {
                    kept.push(';');
                }
                in_param_block = false;
                depth = 0;
            }
            keep = Some(kept);
        }
        proof {
            let after = LineState { in_param_block, depth: depth as nat, seen: text_set(seen@) };
            let kept_view: Option<Seq<char>> = if keep is Some {
                Some(keep->0@)
            } else {
                None
            };
            assert(step(state, ls[i as int], next) == (kept_view, after));
        }
        match keep {
            Some(k) => {
                if wrote {
                    out.push('\n');
                }
                assert(k@.skip(0) =~= k@);
                push_from(&mut out, &k, 0);
                wrote = true;
                proof {
                    done = done.push(k@);
                    assert(done.drop_last() =~= old_done);
                    assert(old_done + (seq![k@] + finished_from(
                        ls,
                        i + 1,
                        LineState { in_param_block, depth: depth as nat, seen: text_set(seen@) },
                    )) =~= done + finished_from(
                        ls,
                        i + 1,
                        LineState { in_param_block, depth: depth as nat, seen: text_set(seen@) },
                    ));
                    if old_done.len() == 0 {
                        assert(done[0] == k@);
                        assert(Seq::<char>::empty() + k@ =~= k@);
                    }
                }
            },
            None => {},
        }
        i += 1;
    }
    assert(done + Seq::<Seq<char>>::empty() =~= done);
    string_of(&out)
}

} // verus!
